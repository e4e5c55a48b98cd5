//! The top of the pipeline: resolve the index key, decrypt the index
//! container, and decrypt every track the index names.
//!
//! `Decryptor::new` turns identity candidates, the container bytes and
//! the initialization vector into the decrypted record stream;
//! `decrypt_all` walks that stream and transcodes each named track it
//! can match and whose key unwraps, skipping the rest.

use vstd::prelude::*;

use crate::decryption::{Decryption, cipher_ks, track_key_usable};
use crate::errors::DecryptError;
use crate::index::{
    container_wf,
    index_stream,
    candidate_key,
    first_valid_candidate,
    resolve_index_key,
    decrypt_index,
    stored_size,
};
use crate::keyblob::raw_key_of;
use crate::mapl::mapl_ks;
use crate::params::SHORT_KEY_LIMIT;
use crate::records::{parse_record, parse_next_kv, lemma_parse_record_used};
use crate::transcode::{cipher_cut, transcode_track};
use crate::tweaked_rc4::{rc4_ks_parts, key_hash, sbox_of};

verus! {

/// A named byte payload: a track's join name and its file content.
pub struct Track {
    pub name: Vec<u8>,
    pub data: Vec<u8>,
}

/// The views of a list of tracks, as `(name, data)` pairs.
pub open spec fn track_views(s: Seq<Track>) -> Seq<(Seq<u8>, Seq<u8>)> {
    Seq::new(s.len(), |i: int| (s[i].name@, s[i].data@))
}

/// Keystream of the cipher a raw track key selects: the substitution
/// variant below `SHORT_KEY_LIMIT`, the permutation variant otherwise.
pub open spec fn track_ks(raw: Seq<u8>, q: int) -> u8 {
    if raw.len() < SHORT_KEY_LIMIT {
        mapl_ks(raw, q)
    } else {
        rc4_ks_parts(raw, key_hash(raw), sbox_of(raw), q)
    }
}

/// The transcoded form of `data` under the cipher for `raw`: bytes
/// ahead of the tail XORed with the keystream at their own offset,
/// the tail untouched.
pub open spec fn transcode_raw(raw: Seq<u8>, data: Seq<u8>) -> Seq<u8> {
    Seq::new(
        data.len(),
        |i: int|
            if i < cipher_cut(data.len() as int) {
                data[i] ^ track_ks(raw, i)
            } else {
                data[i]
            },
    )
}

/// The join name embedded in a track file: little-endian UTF-16 code
/// units up to the first NUL, each kept as its low byte.
pub open spec fn embedded_name(s: Seq<u8>) -> Seq<u8>
    decreases s.len(),
{
    if s.len() < 2 {
        Seq::empty()
    } else if s[0] == 0 && s[1] == 0 {
        Seq::empty()
    } else {
        seq![s[0]] + embedded_name(s.skip(2))
    }
}

/// Decodes the join name from the name region of a track file (the
/// bytes at the fixed distance from its end): one code unit per
/// character, NUL-terminated.
pub fn embedded_track_name(tail: &[u8]) -> (r: Vec<u8>)
    ensures
        r@ == embedded_name(tail@),
{
    let mut out: Vec<u8> = Vec::new();
    let n = tail.len();
    let mut i: usize = 0;
    proof {
        assert(tail@.skip(0) =~= tail@);
    }
    while i < n / 2
        invariant_except_break
            n == tail@.len(),
            i <= n / 2,
            embedded_name(tail@) == out@ + embedded_name(tail@.skip(2 * i)),
        ensures
            out@ == embedded_name(tail@),
        decreases n - i,
    {
        let lo = *vstd::slice::slice_index_get(tail, 2 * i);
        let hi = *vstd::slice::slice_index_get(tail, 2 * i + 1);
        if lo == 0 && hi == 0 {
            proof {
                assert(embedded_name(tail@.skip(2 * i)) =~= Seq::<u8>::empty());
            }
            break;
        }
        out.push(lo);
        proof {
            assert(tail@.skip(2 * i).skip(2) =~= tail@.skip(2 * (i + 1)));
            assert(embedded_name(tail@) =~= out@ + embedded_name(tail@.skip(2 * (i + 1))));
        }
        i = i + 1;
    }
    out
}

/// Position of the first track whose name equals `name`.
pub open spec fn find_track(tracks: Seq<(Seq<u8>, Seq<u8>)>, name: Seq<u8>) -> Option<int>
    decreases tracks.len(),
{
    if tracks.len() == 0 {
        None
    } else if tracks[0].0 == name {
        Some(0)
    } else {
        match find_track(tracks.drop_first(), name) {
            None => None,
            Some(i) => Some(i + 1),
        }
    }
}

/// Everything a full pass over a record stream produces: one
/// transcoded track per record whose name matches a track and whose
/// key blob unwraps to a usable key, in stream order; unmatched names
/// and failing blobs are skipped without error.
pub open spec fn outputs_of(stream: Seq<u8>, tracks: Seq<(Seq<u8>, Seq<u8>)>) -> Seq<
    (Seq<u8>, Seq<u8>),
>
    decreases stream.len(),
    via outputs_of_decreases
{
    match parse_record(stream) {
        None => Seq::empty(),
        Some(r) => {
            let rest = outputs_of(stream.skip(r.used), tracks);
            match find_track(tracks, r.name) {
                None => rest,
                Some(t) => if track_key_usable(r.blob) {
                    seq![(r.name, transcode_raw(raw_key_of(r.blob), tracks[t].1))] + rest
                } else {
                    rest
                },
            }
        },
    }
}

#[via_fn]
proof fn outputs_of_decreases(stream: Seq<u8>, tracks: Seq<(Seq<u8>, Seq<u8>)>) {
    if parse_record(stream) is Some {
        lemma_parse_record_used(stream);
    }
}

/// When no track below `i` matches, the search's answer is the answer
/// over the remaining suffix, shifted by `i`.
proof fn lemma_find_track_prefix(tracks: Seq<(Seq<u8>, Seq<u8>)>, name: Seq<u8>, i: int)
    requires
        0 <= i <= tracks.len(),
        forall|j: int| 0 <= j < i ==> tracks[j].0 != name,
    ensures
        match find_track(tracks.skip(i), name) {
            None => find_track(tracks, name) is None,
            Some(k) => find_track(tracks, name) == Some(k + i),
        },
    decreases i,
{
    if i == 0 {
        assert(tracks.skip(0) =~= tracks);
    } else {
        lemma_find_track_prefix(tracks, name, i - 1);
        assert(tracks.skip(i - 1).len() > 0);
        assert(tracks.skip(i - 1)[0] == tracks[i - 1]);
        assert(tracks.skip(i - 1).drop_first() =~= tracks.skip(i));
    }
}

/// Byte-for-byte equality of two slices.
fn bytes_eq(a: &[u8], b: &[u8]) -> (r: bool)
    ensures
        r <==> a@ == b@,
{
    if a.len() != b.len() {
        return false;
    }
    let n = a.len();
    for i in 0..n
        invariant
            n == a@.len(),
            a@.len() == b@.len(),
            forall|j: int| 0 <= j < i ==> a@[j] == b@[j],
    {
        if *vstd::slice::slice_index_get(a, i) != *vstd::slice::slice_index_get(b, i) {
            return false;
        }
    }
    proof {
        assert(a@ =~= b@);
    }
    true
}

/// Finds the first track named `name`, scanning in order.
fn find_track_exec(tracks: &Vec<Track>, name: &[u8]) -> (r: Option<usize>)
    ensures
        match r {
            Some(t) => find_track(track_views(tracks@), name@) == Some(t as int) && t
                < tracks@.len(),
            None => find_track(track_views(tracks@), name@) is None,
        },
{
    let ghost tv = track_views(tracks@);
    let n = tracks.len();
    for i in 0..n
        invariant
            n == tracks@.len(),
            tv == track_views(tracks@),
            forall|j: int| 0 <= j < i ==> tv[j].0 != name@,
    {
        if bytes_eq(tracks[i].name.as_slice(), name) {
            proof {
                lemma_find_track_prefix(tv, name@, i as int);
                assert(tv.skip(i as int)[0] == tv[i as int]);
            }
            return Some(i);
        }
    }
    proof {
        lemma_find_track_prefix(tv, name@, n as int);
        assert(tv.skip(n as int).len() == 0);
    }
    None
}

/// The resolved pipeline state: the index key that passed validation
/// and the decrypted record stream.
pub struct Decryptor {
    pub db_key: Vec<u8>,
    pub decrypted_db: Vec<u8>,
}

impl Decryptor {
    /// Resolves the index key against the container's first cipher
    /// block, scanning the identity candidates in order, and decrypts
    /// the container. Fails with `MalformedContainer` exactly when the
    /// container's stored size does not agree with the bytes present,
    /// and with `KeyNotFound` exactly when the container is sound but
    /// every candidate fails the magic-marker check.
    pub fn new(
        candidates: &Vec<Vec<u8>>,
        secondary: &[u8],
        container: &[u8],
        iv: &[u8],
    ) -> (r: Result<Decryptor, DecryptError>)
        requires
            iv@.len() == 16,
        ensures
            match r {
                Ok(d) => {
                    &&& container_wf(container@)
                    &&& match first_valid_candidate(
                        candidates.deep_view(),
                        secondary@,
                        iv@,
                        container@.subrange(4, 20),
                    ) {
                        Some(ci) => d.db_key@ == candidate_key(
                            candidates.deep_view()[ci],
                            secondary@,
                        ),
                        None => false,
                    }
                    &&& d.db_key@.len() == 16
                    &&& d.decrypted_db@ == index_stream(container@, iv@, d.db_key@)
                    &&& d.decrypted_db@.len() == stored_size(container@) - 4
                },
                Err(e) => {
                    &&& (e == DecryptError::MalformedContainer <==> !container_wf(container@))
                    &&& (e == DecryptError::KeyNotFound <==> container_wf(container@)
                        && first_valid_candidate(
                        candidates.deep_view(),
                        secondary@,
                        iv@,
                        container@.subrange(4, 20),
                    ) is None)
                    &&& (e == DecryptError::MalformedContainer || e == DecryptError::KeyNotFound)
                },
            },
    {
        if !check_container(container) {
            return Err(DecryptError::MalformedContainer);
        }
        let first_block = vstd::slice::slice_subrange(container, 4, 20);
        let (ci, key) = match resolve_index_key(candidates, secondary, iv, first_block) {
            Err(_) => {
                return Err(DecryptError::KeyNotFound);
            },
            Ok(ik) => ik,
        };
        proof {
            assert(candidates.deep_view()[ci as int] =~= candidates@[ci as int]@);
        }
        let db = match decrypt_index(container, iv, key.as_slice()) {
            Err(_) => {
                return Err(DecryptError::MalformedContainer);
            },
            Ok(v) => v,
        };
        Ok(Decryptor { db_key: key, decrypted_db: db })
    }

    /// Walks the record stream and transcodes each track it names: a
    /// record contributes one output when a track with its name exists
    /// and its key blob unwraps to a usable key; unmatched records and
    /// failing blobs are skipped and the pass continues. Outputs keep
    /// stream order.
    pub fn decrypt_all(&self, tracks: &Vec<Track>) -> (out: Vec<Track>)
        ensures
            track_views(out@) == outputs_of(self.decrypted_db@, track_views(tracks@)),
    {
        let ghost tv = track_views(tracks@);
        let mut out: Vec<Track> = Vec::new();
        let mut buf: &[u8] = self.decrypted_db.as_slice();
        loop
            invariant
                tv == track_views(tracks@),
                outputs_of(self.decrypted_db@, tv) == track_views(out@) + outputs_of(buf@, tv),
            ensures
                parse_record(buf@) is None,
                outputs_of(self.decrypted_db@, tv) == track_views(out@) + outputs_of(buf@, tv),
            decreases buf@.len(),
        {
            match parse_next_kv(buf) {
                None => {
                    break;
                },
                Some((rest, name, blob)) => {
                    let ghost pr = parse_record(buf@)->Some_0;
                    proof {
                        lemma_parse_record_used(buf@);
                    }
                    let ghost out_pre = out@;
                    match find_track_exec(tracks, name) {
                        None => {},
                        Some(t) => {
                            match Decryption::new(blob) {
                                Err(_) => {},
                                Ok(d) => {
                                    let mut data = vstd::slice::slice_to_vec(
                                        tracks[t].data.as_slice(),
                                    );
                                    transcode_track(&d, &mut data);
                                    proof {
                                        let raw = raw_key_of(blob@);
                                        assert(forall|q: int|
                                            cipher_ks(d.cipher, q) == track_ks(raw, q));
                                        assert(data@ =~= transcode_raw(raw, tracks@[t as int].data@));
                                        assert(tv[t as int].1 == tracks@[t as int].data@);
                                    }
                                    let name_copy = vstd::slice::slice_to_vec(name);
                                    out.push(Track { name: name_copy, data });
                                    proof {
                                        assert(track_views(out@) =~= track_views(out_pre) + seq![
                                            (pr.name, transcode_raw(raw_key_of(pr.blob), tv[t as int].1)),
                                        ]);
                                    }
                                },
                            }
                        },
                    }
                    buf = rest;
                },
            }
        }
        out
    }
}

/// Whether the container announces exactly the bytes it holds: four
/// size bytes, a size covering them, ciphertext of the padded size.
fn check_container(container: &[u8]) -> (r: bool)
    ensures
        r == container_wf(container@),
        r ==> container@.len() >= 20,
{
    if container.len() < 4 {
        return false;
    }
    let b0 = *vstd::slice::slice_index_get(container, 0);
    let b1 = *vstd::slice::slice_index_get(container, 1);
    let b2 = *vstd::slice::slice_index_get(container, 2);
    let b3 = *vstd::slice::slice_index_get(container, 3);
    let size: u64 = b0 as u64 + 0x100 * b1 as u64 + 0x10000 * b2 as u64 + 0x1000000 * b3 as u64;
    proof {
        assert(container@.subrange(0, 4) =~= seq![
            container@[0],
            container@[1],
            container@[2],
            container@[3],
        ]);
    }
    if size < 4 {
        return false;
    }
    let padded: u64 = if size % 16 == 0 {
        size
    } else {
        size + (16 - size % 16)
    };
    container.len() as u64 - 4 == padded
}

} // verus!
