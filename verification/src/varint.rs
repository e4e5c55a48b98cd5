//! Little-endian base-128 variable-length integers.
//!
//! Each byte carries 7 data bits, least significant group first; a set
//! high bit marks a continuation. The index record stream length-prefixes
//! its fields with these.

use vstd::prelude::*;

verus! {

/// Whether `s` starts with a complete varint, that is, a byte with a
/// clear high bit is reached before the sequence ends.
pub open spec fn varint_has(s: Seq<u8>) -> bool
    decreases s.len(),
{
    s.len() != 0 && (s[0] < 128 || varint_has(s.drop_first()))
}

/// Value of the varint at the head of `s` (meaningful when
/// `varint_has(s)` holds).
pub open spec fn varint_value(s: Seq<u8>) -> nat
    decreases s.len(),
{
    if s.len() == 0 {
        0
    } else if s[0] < 128 {
        s[0] as nat
    } else {
        (s[0] - 128) as nat + 128 * varint_value(s.drop_first())
    }
}

/// Number of bytes the varint at the head of `s` occupies (meaningful
/// when `varint_has(s)` holds).
pub open spec fn varint_length(s: Seq<u8>) -> int
    decreases s.len(),
{
    if s.len() == 0 {
        0
    } else if s[0] < 128 {
        1
    } else {
        1 + varint_length(s.drop_first())
    }
}

/// The canonical encoding of `v`: shortest form, 7 bits per byte.
pub open spec fn varint_encoding(v: nat) -> Seq<u8>
    decreases v,
{
    if v < 128 {
        seq![v as u8]
    } else {
        seq![(v % 128 + 128) as u8] + varint_encoding(v / 128)
    }
}

/// A complete varint occupies between 1 byte and the whole of `s`.
pub proof fn lemma_varint_length_bounds(s: Seq<u8>)
    requires
        varint_has(s),
    ensures
        1 <= varint_length(s) <= s.len(),
    decreases s.len(),
{
    if s[0] >= 128 {
        lemma_varint_length_bounds(s.drop_first());
    }
}

/// Law: encoding then decoding is the identity. The canonical encoding
/// of any value is a complete varint, decodes to that value, and is
/// consumed whole.
pub proof fn lemma_varint_round_trip(v: nat)
    ensures
        varint_has(varint_encoding(v)),
        varint_value(varint_encoding(v)) == v,
        varint_length(varint_encoding(v)) == varint_encoding(v).len(),
    decreases v,
{
    if v < 128 {
    } else {
        lemma_varint_round_trip(v / 128);
        let e = varint_encoding(v);
        assert(e.drop_first() =~= varint_encoding(v / 128));
        assert(v % 128 + 128 * (v / 128) == v) by (nonlinear_arith);
    }
}

/// Reads the varint at the head of `buf`. Returns its value and the
/// number of bytes it occupies, or `None` when the buffer ends before
/// the varint does or the value does not fit in `usize`.
pub fn decode_varint(buf: &[u8]) -> (r: Option<(usize, usize)>)
    ensures
        match r {
            Some(vl) => varint_has(buf@) && varint_value(buf@) <= usize::MAX
                && vl.0 == varint_value(buf@) && vl.1 == varint_length(buf@),
            None => !varint_has(buf@) || varint_value(buf@) > usize::MAX,
        },
    decreases buf@.len(),
{
    if buf.len() == 0 {
        return None;
    }
    let b = *vstd::slice::slice_index_get(buf, 0);
    if b < 128 {
        Some((b as usize, 1))
    } else {
        let rest = vstd::slice::slice_subrange(buf, 1, buf.len());
        proof {
            assert(rest@ =~= buf@.drop_first());
        }
        match decode_varint(rest) {
            None => None,
            Some((v, l)) => {
                proof {
                    lemma_varint_length_bounds(rest@);
                }
                let low = (b - 128) as usize;
                if v > (usize::MAX - low) / 128 {
                    proof {
                        assert(128 * ((usize::MAX - low) / 128) + low <= usize::MAX
                            && (v > (usize::MAX - low) / 128 ==> low + 128 * v > usize::MAX))
                            by (nonlinear_arith)
                            requires
                                v <= usize::MAX,
                                low < 128,
                        ;
                    }
                    None
                } else {
                    proof {
                        assert(low + 128 * v <= usize::MAX) by (nonlinear_arith)
                            requires
                                low < 128,
                                v <= (usize::MAX - low) / 128,
                        ;
                    }
                    Some((low + 128 * v, l + 1))
                }
            },
        }
    }
}

/// Writes `v` in its canonical varint form.
pub fn encode_varint(v: usize) -> (r: Vec<u8>)
    ensures
        r@ == varint_encoding(v as nat),
    decreases v,
{
    let mut r: Vec<u8> = Vec::new();
    if v < 128 {
        r.push(v as u8);
    } else {
        let mut rest = encode_varint(v / 128);
        r.push((v % 128 + 128) as u8);
        r.append(&mut rest);
        proof {
            assert(r@ =~= varint_encoding(v as nat));
        }
    }
    r
}

} // verus!
