//! Index key derivation, ordered candidate resolution, and container
//! validation, checked against the real cipher crates.

use aes::Aes128;
use aes::cipher::KeyIvInit;
use aes::cipher::generic_array::GenericArray;
use mflac_dec::errors::DecryptError;
use mflac_dec::index::{derive_index_key, resolve_index_key, decrypt_index};
use mflac_dec::params::{KEY_SUFFIX, INDEX_MAGIC};

fn cfb_encrypt(key: &[u8], iv: &[u8], data: &[u8]) -> Vec<u8> {
    let mut enc = cfb_mode::BufEncryptor::<Aes128>::new(
        GenericArray::from_slice(key),
        GenericArray::from_slice(iv),
    );
    let mut buf = data.to_vec();
    enc.encrypt(&mut buf);
    buf
}

/// A candidate whose derived key is a full 16 bytes (the two low hex
/// fields can print short; scan a small family until one fits).
fn pick_candidate(secondary: &[u8], tag: u8) -> Vec<u8> {
    for n in 0u8..=255 {
        let cand = vec![b'C', b'A', b'N', b'D', tag, n];
        if derive_index_key(&cand, secondary).len() == 16 {
            return cand;
        }
    }
    panic!("no candidate with a 16-byte key in the family");
}

fn pad16(n: usize) -> usize {
    if n % 16 == 0 { n } else { ((n >> 4) + 1) << 4 }
}

/// Container bytes: little-endian size, then the stream (prefixed by
/// four reserved bytes) padded and CFB-encrypted.
fn build_container(key: &[u8], iv: &[u8], stream: &[u8]) -> Vec<u8> {
    let size = 4 + stream.len();
    let mut plain = vec![0u8; 4];
    plain.extend_from_slice(stream);
    plain.resize(pad16(size), 0);
    let ct = cfb_encrypt(key, iv, &plain);
    let mut out = (size as u32).to_le_bytes().to_vec();
    out.extend_from_slice(&ct);
    out
}

/// A minimal stream whose first four bytes are the magic marker: one
/// throwaway record whose name-length byte and name happen to spell
/// the marker.
fn magic_stream() -> Vec<u8> {
    assert_eq!(INDEX_MAGIC[0], 0x18);
    let mut stream = vec![INDEX_MAGIC[0]];
    let mut name = vec![INDEX_MAGIC[1], INDEX_MAGIC[2], INDEX_MAGIC[3]];
    name.resize(0x18, b'x');
    stream.extend_from_slice(&name);
    stream.push(0); // reserved field, empty
    stream.push(0); // key blob, empty
    stream
}

#[test]
fn test_key_derivation_deterministic() {
    let primary = b"00E04C680001";
    let secondary = b"SERIAL-SECRET";
    let k1 = derive_index_key(primary, secondary);
    let k2 = derive_index_key(primary, secondary);
    assert_eq!(k1, k2);

    // Cross-check the digest-and-reformat path against the md5 crate.
    let mut material = primary.to_vec();
    material.extend_from_slice(secondary);
    material.extend_from_slice(&KEY_SUFFIX);
    let digest = md5::compute(&material);
    let expected = format!(
        "{:08X}{:02X}{:02X}",
        u32::from_le_bytes(digest[0..4].try_into().unwrap()),
        u16::from_le_bytes(digest[4..6].try_into().unwrap()),
        u16::from_le_bytes(digest[6..8].try_into().unwrap()),
    );
    assert_eq!(k1, expected.as_bytes());
}

#[test]
fn test_candidate_order_third_wins() {
    let secondary = b"DISKSERIAL";
    let c1 = pick_candidate(secondary, b'1');
    let c2 = pick_candidate(secondary, b'2');
    let c3 = pick_candidate(secondary, b'3');
    let key3 = derive_index_key(&c3, secondary);
    let iv = [0x42u8; 16];
    let container = build_container(&key3, &iv, &magic_stream());

    let candidates = vec![c1, c2, c3.clone()];
    let (index, key) = resolve_index_key(&candidates, secondary, &iv, &container[4..20])
        .expect("third candidate must match");
    assert_eq!(index, 2);
    assert_eq!(key, key3);
}

#[test]
fn test_no_candidate_matches() {
    let secondary = b"DISKSERIAL";
    let c3 = pick_candidate(secondary, b'3');
    let key3 = derive_index_key(&c3, secondary);
    let iv = [0x42u8; 16];
    let container = build_container(&key3, &iv, &magic_stream());

    let candidates = vec![pick_candidate(secondary, b'1'), pick_candidate(secondary, b'2')];
    let r = resolve_index_key(&candidates, secondary, &iv, &container[4..20]);
    assert_eq!(r, Err(DecryptError::KeyNotFound));
}

#[test]
fn test_decrypt_index_round_trip() {
    let secondary = b"DISKSERIAL";
    let cand = pick_candidate(secondary, b'0');
    let key = derive_index_key(&cand, secondary);
    let iv = [0x17u8; 16];
    let stream = magic_stream();
    let container = build_container(&key, &iv, &stream);

    let got = decrypt_index(&container, &iv, &key).expect("well-formed container");
    assert_eq!(got, stream);
}

#[test]
fn test_malformed_container_rejected() {
    let secondary = b"DISKSERIAL";
    let cand = pick_candidate(secondary, b'0');
    let key = derive_index_key(&cand, secondary);
    let iv = [0x17u8; 16];
    let good = build_container(&key, &iv, &magic_stream());

    // One ciphertext byte too few: stored size disagrees.
    let truncated = &good[..good.len() - 1];
    assert_eq!(decrypt_index(truncated, &iv, &key), Err(DecryptError::MalformedContainer));

    // A stored size that promises more than is present.
    let mut oversize = good.clone();
    oversize[0] = oversize[0].wrapping_add(0x20);
    assert_eq!(decrypt_index(&oversize, &iv, &key), Err(DecryptError::MalformedContainer));

    // Too short to even hold the size field.
    assert_eq!(decrypt_index(&good[..3], &iv, &key), Err(DecryptError::MalformedContainer));

    // A stored size below the four bytes it must cover.
    let mut tiny = vec![2u8, 0, 0, 0];
    tiny.resize(4, 0);
    assert_eq!(decrypt_index(&tiny, &iv, &key), Err(DecryptError::MalformedContainer));
}
