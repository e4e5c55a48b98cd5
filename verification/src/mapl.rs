//! The substitution cipher variant, selected for short track keys.
//!
//! Stateless: the keystream byte for an absolute offset is a bitwise
//! rotation of one key byte, picked by a quadratic function of the
//! offset; offsets beyond `MAPL_WRAP` wrap around modulo it.

use vstd::prelude::*;
use vstd::pervasive::VecAdditionalExecFns;

use crate::params::{MAPL_WRAP, MAPL_OFFSET};

verus! {

/// Combination of right and left shift of `v` by the same amount: the
/// keystream post-processing applied to the selected key byte.
pub open spec fn rotate_byte(v: u8, r: u8) -> u8 {
    (v >> r) | (v << r)
}

/// Keystream byte of a short key at absolute offset `p`.
pub open spec fn mapl_ks(key: Seq<u8>, p: int) -> u8 {
    let off = if p > MAPL_WRAP { p % (MAPL_WRAP as int) } else { p };
    let idx = (off * off + MAPL_OFFSET) % (key.len() as int);
    rotate_byte(key[idx], ((idx + 4) % 8) as u8)
}

/// The substitution cipher: holds the raw track key it substitutes
/// from.
pub struct MapL {
    pub key: Vec<u8>,
}

impl MapL {
    /// A usable substitution key holds at least one byte.
    pub open spec fn wf(&self) -> bool {
        self.key@.len() >= 1
    }

    /// Wraps a raw track key.
    pub fn new(key: Vec<u8>) -> (r: MapL)
        ensures
            r.key == key,
    {
        MapL { key }
    }

    /// XORs the first `dec_size` bytes of `buf` with the keystream for
    /// absolute offsets starting at `cur_pos`; later bytes stay as they
    /// are. Pure in the offset: how a range is split over calls cannot
    /// change the result.
    pub fn decrypt(&self, buf: &mut Vec<u8>, cur_pos: usize, dec_size: usize)
        requires
            self.wf(),
            dec_size <= old(buf)@.len(),
            cur_pos + dec_size <= usize::MAX,
        ensures
            final(buf)@.len() == old(buf)@.len(),
            forall|i: int|
                0 <= i < dec_size ==> final(buf)@[i] == (old(buf)@[i] ^ mapl_ks(
                    self.key@,
                    cur_pos + i,
                )),
            forall|i: int| dec_size <= i < old(buf)@.len() ==> final(buf)@[i] == old(buf)@[i],
    {
        let mut i: usize = 0;
        while i < dec_size
            invariant
                self.wf(),
                i <= dec_size,
                dec_size <= buf@.len(),
                cur_pos + dec_size <= usize::MAX,
                buf@.len() == old(buf)@.len(),
                forall|j: int|
                    0 <= j < i ==> buf@[j] == (old(buf)@[j] ^ mapl_ks(self.key@, cur_pos + j)),
                forall|j: int| i <= j < old(buf)@.len() ==> buf@[j] == old(buf)@[j],
            decreases dec_size - i,
        {
            let mut off = cur_pos + i;
            if off > MAPL_WRAP {
                off = off % MAPL_WRAP;
            }
            proof {
                assert(off * off <= 0x3FFF0001) by (nonlinear_arith)
                    requires
                        off <= 0x7FFF,
                ;
            }
            let idx = (off * off + MAPL_OFFSET) % self.key.len();
            proof {
                assert(idx <= off * off + MAPL_OFFSET) by (nonlinear_arith)
                    requires
                        idx == (off * off + MAPL_OFFSET) % (self.key@.len() as int),
                        self.key@.len() >= 1,
                        off * off + MAPL_OFFSET >= 0,
                ;
            }
            let rot = ((idx + 4) % 8) as u8;
            let v = self.key[idx];
            let ks = (v >> rot) | (v << rot);
            let b = buf[i];
            buf.set(i, b ^ ks);
            i = i + 1;
        }
    }
}

} // verus!
