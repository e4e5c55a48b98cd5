//! Recovery of plaintext audio from a proprietary on-disk store.
//!
//! An encrypted local index maps track names to per-track cipher keys;
//! each track's payload is encrypted with a custom, offset-dependent
//! stream cipher keyed from that index. The library derives and
//! validates the index key from machine-identity material, decrypts and
//! parses the index, unwraps each per-track key, and runs the stream
//! cipher over track payloads. All file and platform access stays with
//! the caller; the library works on plain byte values.

pub mod decryption;
pub mod decryptor;
pub mod errors;
pub mod index;
pub mod keyblob;
pub mod mapl;
pub mod params;
pub mod primitives;
pub mod records;
pub mod transcode;
pub mod tweaked_rc4;
pub mod varint;
