//! Region-aware transcoding of one track.
//!
//! A track file has three regions: header, body, and a fixed-size
//! tail. Header and body are decrypted; the tail is copied verbatim.
//! `Transcoder` plans and performs the chunked read-decrypt-write
//! cycle over a file whose bytes arrive block by block;
//! `transcode_track` does the same to a whole in-memory buffer.

use vstd::prelude::*;

use crate::decryption::{Decryption, CipherType, cipher_ks};
use crate::params::{BLOCK_SIZE, TAIL_SIZE};

verus! {

/// How many leading bytes of a track of length `len` are transformed:
/// all but the tail; short files are copied whole.
pub open spec fn cipher_cut(len: int) -> int {
    if len >= TAIL_SIZE {
        len - TAIL_SIZE
    } else {
        0
    }
}

/// The transcoded form of a whole track: bytes before the cut XORed
/// with the keystream at their own absolute offset, tail bytes
/// untouched.
pub open spec fn transcode_spec(c: CipherType, data: Seq<u8>) -> Seq<u8> {
    Seq::new(
        data.len(),
        |i: int|
            if i < cipher_cut(data.len() as int) {
                data[i] ^ cipher_ks(c, i)
            } else {
                data[i]
            },
    )
}

/// Size of the chunk to consume next, standing at `pos` in a track of
/// `fs` bytes: full blocks while one fits ahead of the tail, then the
/// remainder down to the tail, then nothing.
pub open spec fn next_chunk_spec(fs: int, pos: int) -> int {
    if pos + BLOCK_SIZE + TAIL_SIZE <= fs {
        BLOCK_SIZE as int
    } else if pos + TAIL_SIZE < fs {
        fs - TAIL_SIZE - pos
    } else {
        0
    }
}

/// Drives the chunked decryption of one track, tracking the running
/// absolute offset so each chunk is keyed by its true position.
pub struct Transcoder {
    pub decryption: Decryption,
    pub file_size: usize,
    pub position: usize,
}

impl Transcoder {
    /// A transcoder standing inside its track.
    pub open spec fn wf(&self) -> bool {
        &&& self.decryption.wf()
        &&& self.position <= self.file_size
    }

    /// Starts a transcoding session at offset zero.
    pub fn new(decryption: Decryption, file_size: usize) -> (r: Transcoder)
        requires
            decryption.wf(),
        ensures
            r.wf(),
            r.decryption == decryption,
            r.file_size == file_size,
            r.position == 0,
    {
        Transcoder { decryption, file_size, position: 0 }
    }

    /// How many bytes to read and decrypt next; zero once only the
    /// tail (or nothing) remains, which the caller copies verbatim.
    pub fn next_chunk_len(&self) -> (r: usize)
        requires
            self.wf(),
        ensures
            r == next_chunk_spec(self.file_size as int, self.position as int),
            self.position + r <= self.file_size,
    {
        if self.file_size >= BLOCK_SIZE + TAIL_SIZE && self.position <= self.file_size - BLOCK_SIZE
            - TAIL_SIZE {
            BLOCK_SIZE
        } else if self.file_size >= TAIL_SIZE && self.position < self.file_size - TAIL_SIZE {
            self.file_size - TAIL_SIZE - self.position
        } else {
            0
        }
    }

    /// Decrypts one chunk standing at the current offset and advances
    /// the cursor past it. The chunk must be exactly the planned size.
    pub fn process_chunk(&mut self, buf: &mut Vec<u8>)
        requires
            old(self).wf(),
            old(buf)@.len() == next_chunk_spec(
                old(self).file_size as int,
                old(self).position as int,
            ),
        ensures
            final(self).wf(),
            final(self).decryption == old(self).decryption,
            final(self).file_size == old(self).file_size,
            final(self).position == old(self).position + old(buf)@.len(),
            final(buf)@.len() == old(buf)@.len(),
            forall|i: int|
                0 <= i < old(buf)@.len() ==> final(buf)@[i] == (old(buf)@[i] ^ cipher_ks(
                    old(self).decryption.cipher,
                    old(self).position + i,
                )),
    {
        let n = buf.len();
        self.decryption.decrypt(buf, self.position, n);
        self.position = self.position + n;
    }
}

/// Transcodes a whole in-memory track: every byte ahead of the tail is
/// decrypted at its own absolute offset, the tail stays byte-identical.
pub fn transcode_track(decryption: &Decryption, data: &mut Vec<u8>)
    requires
        decryption.wf(),
    ensures
        final(data)@ == transcode_spec(decryption.cipher, old(data)@),
{
    let total = data.len();
    let cut = if total >= TAIL_SIZE {
        total - TAIL_SIZE
    } else {
        0
    };
    decryption.decrypt(data, 0, cut);
    proof {
        assert(data@ =~= transcode_spec(decryption.cipher, old(data)@));
    }
}

} // verus!
