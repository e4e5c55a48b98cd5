//! Fixed parameters of the on-disk format and of the track stream cipher.

use vstd::prelude::*;

verus! {

/// Size of one cipher window in a track's body region.
pub const BLOCK_SIZE: usize = 0x1400;

/// Size of a track's header region; bytes below this offset use the
/// header keystream of the substitution cipher.
pub const HEADER_SIZE: usize = 0x80;

/// Size of a track's tail region; the final bytes of a track file are
/// copied verbatim, never transformed.
pub const TAIL_SIZE: usize = 0xC0;

/// Bit mask over key indices for the permutation-based cipher variant;
/// equals `RC4_KEY_LEN - 1`.
pub const KEY_LEN_MASK: usize = 0x1FF;

/// Key length that the permutation-based cipher variant works over.
pub const RC4_KEY_LEN: usize = 0x200;

/// Keys shorter than this select the substitution variant; keys of
/// `RC4_KEY_LEN` bytes select the permutation variant.
pub const SHORT_KEY_LIMIT: usize = 300;

/// Absolute offsets beyond this value wrap around in the substitution
/// variant's index computation.
pub const MAPL_WRAP: usize = 0x7FFF;

/// Additive constant in the substitution variant's index computation.
pub const MAPL_OFFSET: usize = 71214;

/// Fixed suffix appended to the identity material before hashing it
/// into the index key.
pub const KEY_SUFFIX: [u8; 8] = [0x5C, 0xBD, 0x98, 0x7C, 0x1C, 0x38, 0x17, 0x8E];

/// Marker bytes expected at offset 4 of the decrypted index; a candidate
/// index key is valid exactly when its first decrypted block shows them.
pub const INDEX_MAGIC: [u8; 4] = [0x18, 0x46, 0x30, 0x4D];

/// Fixed bytes interleaved with the blob header to build the 16-byte
/// unwrap key for the per-track key blobs.
pub const TEA_KEY_MAGIC: [u8; 8] = [0x69, 0x56, 0x46, 0x38, 0x2B, 0x20, 0x15, 0x0B];

} // verus!
