//! One track's cipher: variant selection, key unwrapping and the
//! position-aware decrypt operation.
//!
//! The variant is chosen once, from the raw key's length: short keys
//! take the substitution cipher, full-length keys the permutation
//! cipher. Either way the keystream byte for an absolute offset is a
//! function of that offset and the key alone, so any split of a range
//! into calls yields the same bytes.

use vstd::prelude::*;

use crate::errors::DecryptError;
use crate::keyblob::{blob_decode_ok, raw_key_of, unwrap_track_key};
use crate::mapl::{MapL, mapl_ks};
use crate::params::{RC4_KEY_LEN, SHORT_KEY_LIMIT};
use crate::tweaked_rc4::{TweakedRC4, rc4_ks, key_hash, sbox_of};

verus! {

/// The two cipher variants.
pub enum CipherType {
    MapL(MapL),
    TweakedRC4(TweakedRC4),
}

/// Keystream byte of either variant at absolute offset `q`.
pub open spec fn cipher_ks(c: CipherType, q: int) -> u8 {
    match c {
        CipherType::MapL(m) => mapl_ks(m.key@, q),
        CipherType::TweakedRC4(t) => rc4_ks(t, q),
    }
}

/// The result of XORing `data` with the keystream for absolute
/// offsets starting at `pos`.
pub open spec fn cipher_apply(c: CipherType, data: Seq<u8>, pos: int) -> Seq<u8> {
    Seq::new(data.len(), |i: int| data[i] ^ cipher_ks(c, pos + i))
}

/// Law: offset-chunk invariance. Decrypting a buffer in one call
/// equals decrypting it in two calls split at any interior point,
/// provided each call stands at its correct absolute offset. The
/// keystream depends on the absolute offset alone, so the split point
/// cannot influence a single byte.
pub proof fn lemma_chunk_invariance(c: CipherType, data: Seq<u8>, pos: int, s: int)
    requires
        0 <= s <= data.len(),
    ensures
        cipher_apply(c, data, pos) == cipher_apply(c, data.take(s), pos) + cipher_apply(
            c,
            data.skip(s),
            pos + s,
        ),
{
    assert(cipher_apply(c, data, pos) =~= cipher_apply(c, data.take(s), pos) + cipher_apply(
        c,
        data.skip(s),
        pos + s,
    ));
}

impl CipherType {
    /// Well-formedness of the held variant.
    pub open spec fn wf(&self) -> bool {
        match self {
            CipherType::MapL(c) => c.wf(),
            CipherType::TweakedRC4(c) => c.wf(),
        }
    }

    /// The raw track key either variant is built over.
    pub open spec fn key_view(&self) -> Seq<u8> {
        match self {
            CipherType::MapL(c) => c.key@,
            CipherType::TweakedRC4(c) => c.key@,
        }
    }

    /// The substitution table: the key itself for the substitution
    /// variant, the scrambled sbox for the permutation variant.
    pub open spec fn sbox_view(&self) -> Seq<u8> {
        match self {
            CipherType::MapL(c) => c.key@,
            CipherType::TweakedRC4(c) => c.sbox@,
        }
    }

    /// Length of the raw track key.
    pub fn key_len(&self) -> (r: usize)
        ensures
            r == self.key_view().len(),
    {
        match self {
            CipherType::MapL(c) => c.key.len(),
            CipherType::TweakedRC4(c) => c.key.len(),
        }
    }

    /// The raw track key.
    pub fn key(&self) -> (r: &[u8])
        ensures
            r@ == self.key_view(),
    {
        match self {
            CipherType::MapL(c) => c.key.as_slice(),
            CipherType::TweakedRC4(c) => c.key.as_slice(),
        }
    }

    /// The substitution table (see `sbox_view`).
    pub fn sbox(&self) -> (r: &[u8])
        ensures
            r@ == self.sbox_view(),
    {
        match self {
            CipherType::MapL(c) => c.key.as_slice(),
            CipherType::TweakedRC4(c) => c.sbox.as_slice(),
        }
    }

    /// The scalar key hash: zero for the substitution variant.
    pub fn hash(&self) -> (r: u32)
        ensures
            match self {
                CipherType::MapL(_) => r == 0,
                CipherType::TweakedRC4(c) => r == c.hash,
            },
    {
        match self {
            CipherType::MapL(_) => 0,
            CipherType::TweakedRC4(c) => c.hash,
        }
    }

    /// Decrypts `dec_size` bytes of `buf` standing at absolute offset
    /// `cur_pos`, with whichever variant is held.
    pub fn decrypt(&self, buf: &mut Vec<u8>, cur_pos: usize, dec_size: usize)
        requires
            self.wf(),
            dec_size <= old(buf)@.len(),
            cur_pos + dec_size <= usize::MAX,
        ensures
            final(buf)@.len() == old(buf)@.len(),
            forall|i: int|
                0 <= i < dec_size ==> final(buf)@[i] == (old(buf)@[i] ^ cipher_ks(
                    *self,
                    cur_pos + i,
                )),
            forall|i: int| dec_size <= i < old(buf)@.len() ==> final(buf)@[i] == old(buf)@[i],
    {
        match self {
            CipherType::MapL(c) => c.decrypt(buf, cur_pos, dec_size),
            CipherType::TweakedRC4(c) => c.decrypt(buf, cur_pos, dec_size),
        }
    }
}

/// Whether an unwrapped blob yields a key either variant accepts:
/// short, or exactly the permutation variant's full length.
pub open spec fn track_key_usable(blob: Seq<u8>) -> bool {
    &&& blob_decode_ok(blob)
    &&& (raw_key_of(blob).len() < SHORT_KEY_LIMIT || raw_key_of(blob).len() == RC4_KEY_LEN)
}

/// One track's cipher.
pub struct Decryption {
    pub cipher: CipherType,
}

impl Decryption {
    /// A usable cipher state.
    pub open spec fn wf(&self) -> bool {
        self.cipher.wf()
    }

    /// Unwraps a per-track key blob and selects the cipher variant by
    /// the raw key's length: below `SHORT_KEY_LIMIT` the substitution
    /// cipher, exactly `RC4_KEY_LEN` the permutation cipher. Fails
    /// with `KeyUnwrapError` exactly when the blob does not unwrap or
    /// the raw key has neither usable length.
    pub fn new(blob: &[u8]) -> (r: Result<Decryption, DecryptError>)
        ensures
            match r {
                Ok(d) => {
                    &&& track_key_usable(blob@)
                    &&& d.wf()
                    &&& d.cipher.key_view() == raw_key_of(blob@)
                    &&& if raw_key_of(blob@).len() < SHORT_KEY_LIMIT {
                        d.cipher matches CipherType::MapL(m) && m.key@ == raw_key_of(blob@)
                    } else {
                        d.cipher matches CipherType::TweakedRC4(t) && t.key@ == raw_key_of(blob@)
                            && t.hash == key_hash(raw_key_of(blob@)) && t.sbox@ == sbox_of(
                            raw_key_of(blob@),
                        )
                    }
                },
                Err(e) => e == DecryptError::KeyUnwrapError && !track_key_usable(blob@),
            },
    {
        let raw = match unwrap_track_key(blob) {
            Err(e) => {
                return Err(e);
            },
            Ok(v) => v,
        };
        if raw.len() < SHORT_KEY_LIMIT {
            proof {
                assert(raw_key_of(blob@).len() >= 8);
            }
            Ok(Decryption { cipher: CipherType::MapL(MapL::new(raw)) })
        } else if raw.len() == RC4_KEY_LEN {
            Ok(Decryption { cipher: CipherType::TweakedRC4(TweakedRC4::new(raw)) })
        } else {
            Err(DecryptError::KeyUnwrapError)
        }
    }

    /// Decrypts `dec_size` bytes of `buf` standing at absolute offset
    /// `cur_pos`.
    pub fn decrypt(&self, buf: &mut Vec<u8>, cur_pos: usize, dec_size: usize)
        requires
            self.wf(),
            dec_size <= old(buf)@.len(),
            cur_pos + dec_size <= usize::MAX,
        ensures
            final(buf)@.len() == old(buf)@.len(),
            forall|i: int|
                0 <= i < dec_size ==> final(buf)@[i] == (old(buf)@[i] ^ cipher_ks(
                    self.cipher,
                    cur_pos + i,
                )),
            forall|i: int| dec_size <= i < old(buf)@.len() ==> final(buf)@[i] == old(buf)@[i],
    {
        self.cipher.decrypt(buf, cur_pos, dec_size)
    }

    /// The permutation cipher's decrypt, for states holding that
    /// variant.
    pub fn tweaked_rc4(&self, buf: &mut Vec<u8>, cur_pos: usize, dec_size: usize)
        requires
            self.wf(),
            self.cipher is TweakedRC4,
            dec_size <= old(buf)@.len(),
            cur_pos + dec_size <= usize::MAX,
        ensures
            final(buf)@.len() == old(buf)@.len(),
            forall|i: int|
                0 <= i < dec_size ==> final(buf)@[i] == (old(buf)@[i] ^ cipher_ks(
                    self.cipher,
                    cur_pos + i,
                )),
            forall|i: int| dec_size <= i < old(buf)@.len() ==> final(buf)@[i] == old(buf)@[i],
    {
        match &self.cipher {
            CipherType::TweakedRC4(c) => c.decrypt(buf, cur_pos, dec_size),
            CipherType::MapL(_) => vstd::pervasive::unreached(),
        }
    }
}

} // verus!
