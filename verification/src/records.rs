//! The decrypted index is a stream of records, each serialized as
//! `varint(nameLen) | name | varint(ignoredLen) | ignored | varint(blobLen) | blob`.
//!
//! The middle field is reserved: it is skipped, never interpreted. The
//! stream ends, without error, as soon as fewer bytes remain than the
//! next record requires.

use vstd::prelude::*;

use crate::varint::{varint_has, varint_value, varint_length, decode_varint, lemma_varint_length_bounds};

verus! {

/// One record decoded from the head of the stream: the track `name`,
/// the per-track key `blob`, and the number of bytes `used` by the
/// whole record including its reserved middle field.
pub struct ParsedRecord {
    pub name: Seq<u8>,
    pub blob: Seq<u8>,
    pub used: int,
}

/// The record at the head of `s`, or `None` when `s` ends before a
/// complete record does.
pub open spec fn parse_record(s: Seq<u8>) -> Option<ParsedRecord> {
    if !varint_has(s) {
        None
    } else {
        let nlen = varint_value(s) as int;
        let l1 = varint_length(s);
        if s.len() < l1 + nlen {
            None
        } else {
            let name = s.subrange(l1, l1 + nlen);
            let s2 = s.skip(l1 + nlen);
            if !varint_has(s2) {
                None
            } else {
                let ilen = varint_value(s2) as int;
                let l2 = varint_length(s2);
                if s2.len() < l2 + ilen {
                    None
                } else {
                    let s3 = s2.skip(l2 + ilen);
                    if !varint_has(s3) {
                        None
                    } else {
                        let blen = varint_value(s3) as int;
                        let l3 = varint_length(s3);
                        if s3.len() < l3 + blen {
                            None
                        } else {
                            Some(ParsedRecord {
                                name,
                                blob: s3.subrange(l3, l3 + blen),
                                used: s.len() - s3.len() + l3 + blen,
                            })
                        }
                    }
                }
            }
        }
    }
}

/// A parsed record uses at least one byte and no more than the stream
/// holds.
pub proof fn lemma_parse_record_used(s: Seq<u8>)
    requires
        parse_record(s) is Some,
    ensures
        1 <= parse_record(s)->Some_0.used <= s.len(),
{
    lemma_varint_length_bounds(s);
    let l1 = varint_length(s);
    let nlen = varint_value(s) as int;
    let s2 = s.skip(l1 + nlen);
    lemma_varint_length_bounds(s2);
    let l2 = varint_length(s2);
    let ilen = varint_value(s2) as int;
    let s3 = s2.skip(l2 + ilen);
    lemma_varint_length_bounds(s3);
}

/// All records of the stream `s`, in order, as `(name, blob)` pairs.
pub open spec fn records_of(s: Seq<u8>) -> Seq<(Seq<u8>, Seq<u8>)>
    decreases s.len(),
    via records_of_decreases
{
    match parse_record(s) {
        None => Seq::empty(),
        Some(r) => seq![(r.name, r.blob)] + records_of(s.skip(r.used)),
    }
}

#[via_fn]
proof fn records_of_decreases(s: Seq<u8>) {
    if parse_record(s) is Some {
        lemma_parse_record_used(s);
    }
}

/// Decodes the record at the head of `buf`. Returns the remaining
/// stream, the record's name and its key blob, or `None` at end of
/// stream.
pub fn parse_next_kv<'a>(buf: &'a [u8]) -> (r: Option<(&'a [u8], &'a [u8], &'a [u8])>)
    ensures
        match r {
            Some(t) => parse_record(buf@) matches Some(pr) && t.0@ == buf@.skip(pr.used)
                && t.1@ == pr.name && t.2@ == pr.blob,
            None => parse_record(buf@) is None,
        },
{
    let (nlen, l1) = match decode_varint(buf) {
        None => {
            proof {
                vstd::slice::axiom_spec_len(buf);
                if varint_has(buf@) {
                    lemma_varint_length_bounds(buf@);
                }
            }
            return None;
        },
        Some(x) => x,
    };
    proof {
        lemma_varint_length_bounds(buf@);
    }
    if buf.len() - l1 < nlen {
        return None;
    }
    let name = vstd::slice::slice_subrange(buf, l1, l1 + nlen);
    let rest1 = vstd::slice::slice_subrange(buf, l1 + nlen, buf.len());
    proof {
        assert(rest1@ =~= buf@.skip(l1 + nlen));
    }
    let (ilen, l2) = match decode_varint(rest1) {
        None => {
            proof {
                broadcast use vstd::slice::axiom_spec_len;
                if varint_has(rest1@) {
                    lemma_varint_length_bounds(rest1@);
                }
            }
            return None;
        },
        Some(x) => x,
    };
    proof {
        lemma_varint_length_bounds(rest1@);
    }
    if rest1.len() - l2 < ilen {
        return None;
    }
    let rest2 = vstd::slice::slice_subrange(rest1, l2 + ilen, rest1.len());
    proof {
        assert(rest2@ =~= rest1@.skip(l2 + ilen));
    }
    let (blen, l3) = match decode_varint(rest2) {
        None => {
            proof {
                broadcast use vstd::slice::axiom_spec_len;
                if varint_has(rest2@) {
                    lemma_varint_length_bounds(rest2@);
                }
            }
            return None;
        },
        Some(x) => x,
    };
    proof {
        lemma_varint_length_bounds(rest2@);
    }
    if rest2.len() - l3 < blen {
        return None;
    }
    let blob = vstd::slice::slice_subrange(rest2, l3, l3 + blen);
    let rest = vstd::slice::slice_subrange(rest2, l3 + blen, rest2.len());
    proof {
        let pr = parse_record(buf@)->Some_0;
        assert(rest@ =~= buf@.skip(pr.used));
    }
    Some((rest, name, blob))
}

} // verus!
