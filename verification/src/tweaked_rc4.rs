//! The permutation cipher variant, selected for full-length track keys.
//!
//! Construction derives a scalar hash from the key by repeated
//! multiplication (stopping at the first overflow or non-increase) and
//! an sbox by an index-scrambling pass over an identity-style table.
//! Decryption is windowed: within each `BLOCK_SIZE`-aligned window the
//! keystream byte for an absolute offset comes from a Fisher-Yates
//! style scramble of the sbox, with a position-dependent number of
//! burnt rounds, so the keystream is a function of the absolute offset
//! alone and never of how a range was split into calls.

use vstd::prelude::*;
use vstd::pervasive::VecAdditionalExecFns;

use crate::params::{BLOCK_SIZE, HEADER_SIZE, KEY_LEN_MASK, RC4_KEY_LEN};

verus! {

/// Scalar key hash: starting from 1, multiply by each key byte in
/// turn, stopping at the first product that wraps to zero or fails to
/// increase (computed modulo 2^32).
pub open spec fn key_hash_from(key: Seq<u8>, i: int, acc: u32) -> u32
    decreases key.len() - i,
{
    if i < 0 || i >= key.len() {
        acc
    } else {
        let tmp = ((acc * key[i]) % 0x1_0000_0000) as u32;
        if tmp == 0 || tmp <= acc {
            acc
        } else {
            key_hash_from(key, i + 1, tmp)
        }
    }
}

/// The key hash of a whole key.
pub open spec fn key_hash(key: Seq<u8>) -> u32 {
    key_hash_from(key, 0, 1)
}

/// The table the sbox construction starts from: entry `i` holds `i`
/// reduced to a byte.
pub open spec fn sbox_init(n: int) -> Seq<u8> {
    Seq::new(n as nat, |i: int| (i % 256) as u8)
}

/// A permutation table together with the running index of the
/// scrambling passes.
pub struct PermState {
    pub s: Seq<u8>,
    pub i: int,
}

/// One step of the sbox construction pass, at table position `j`.
pub open spec fn sbox_step(key: Seq<u8>, st: PermState, j: int) -> PermState {
    let n = key.len() as int;
    let i2 = (st.i + key[j] + st.s[j]) % n;
    PermState { s: st.s.update(i2, st.s[j]).update(j, st.s[i2]), i: i2 }
}

/// State of the sbox construction after its first `j` steps.
pub open spec fn sbox_upto(key: Seq<u8>, j: int) -> PermState
    decreases j,
{
    if j <= 0 {
        PermState { s: sbox_init(key.len() as int), i: 0 }
    } else {
        sbox_step(key, sbox_upto(key, j - 1), j - 1)
    }
}

/// The sbox built from `key`: one construction step per key byte.
pub open spec fn sbox_of(key: Seq<u8>) -> Seq<u8> {
    sbox_upto(key, key.len() as int).s
}

/// The pseudo-random index function: `floor(hash * 100 / d) mod 0x200`
/// with `d = key[seed mod 0x200] * (seed + 1)`, saturating to the mask
/// when `d` is zero.
pub open spec fn pseudo_rand(key: Seq<u8>, hash: u32, seed: int) -> int {
    let d = key[seed % 0x200] * (seed + 1);
    if d == 0 {
        KEY_LEN_MASK as int
    } else {
        ((hash as int) * 100 / d) % 0x200
    }
}

/// One step of the keystream scramble, at step number `j` (1-based).
pub open spec fn sc_step(st: PermState, j: int) -> PermState {
    let jm = j % 0x200;
    let i2 = (st.i + st.s[jm]) % 0x200;
    PermState { s: st.s.update(i2, st.s[jm]).update(jm, st.s[i2]), i: i2 }
}

/// State of the keystream scramble after steps `1..=j`, starting from
/// the sbox with index 0.
pub open spec fn sc_upto(init: Seq<u8>, j: int) -> PermState
    decreases j,
{
    if j <= 0 {
        PermState { s: init, i: 0 }
    } else {
        sc_step(sc_upto(init, j - 1), j)
    }
}

/// The keystream byte produced at scramble step `j`.
pub open spec fn scramble_byte(init: Seq<u8>, j: int) -> u8 {
    let st = sc_upto(init, j);
    st.s[(st.s[st.i] + st.s[j % 0x200]) % 0x200]
}

/// The permutation cipher: raw track key, scalar hash, and sbox.
pub struct TweakedRC4 {
    pub key: Vec<u8>,
    pub hash: u32,
    pub sbox: Vec<u8>,
}

/// Keystream byte of the permutation cipher at absolute offset `q`:
/// key bytes selected pseudo-randomly inside the header region, the
/// windowed scramble beyond it. The number of burnt rounds,
/// `q mod BLOCK_SIZE` plus the window's pseudo-random offset, makes
/// the byte a function of `q` alone.
pub open spec fn rc4_ks_parts(key: Seq<u8>, hash: u32, sbox: Seq<u8>, q: int) -> u8 {
    if q < HEADER_SIZE {
        key[pseudo_rand(key, hash, q)]
    } else {
        scramble_byte(
            sbox,
            q % (BLOCK_SIZE as int) + pseudo_rand(key, hash, q / (BLOCK_SIZE as int)) + 1,
        )
    }
}

/// The same keystream byte, read off a cipher state's fields.
pub open spec fn rc4_ks(c: TweakedRC4, q: int) -> u8 {
    rc4_ks_parts(c.key@, c.hash, c.sbox@, q)
}

/// `x & 0x1FF` is reduction modulo 0x200, and so stays below 0x200.
proof fn lemma_mask9(x: usize)
    ensures
        x & 0x1FF == x % 0x200,
        x & 0x1FF < 0x200,
{
    assert(x & 0x1FF == x % 0x200 && x & 0x1FF < 0x200) by (bit_vector);
}

/// `x & 0x1FF` on a 128-bit value, likewise.
proof fn lemma_mask9_u128(x: u128)
    ensures
        x & 0x1FF == x % 0x200,
        x & 0x1FF < 0x200,
{
    assert(x & 0x1FF == x % 0x200 && x & 0x1FF < 0x200) by (bit_vector);
}

/// Positions in the same window share its division and keep their
/// distance under the modulus.
proof fn lemma_same_window(pos: int, k: int)
    requires
        pos >= 0,
        k >= 0,
        pos % (BLOCK_SIZE as int) + k < BLOCK_SIZE,
    ensures
        (pos + k) % (BLOCK_SIZE as int) == pos % (BLOCK_SIZE as int) + k,
        (pos + k) / (BLOCK_SIZE as int) == pos / (BLOCK_SIZE as int),
{
    let b = BLOCK_SIZE as int;
    vstd::arithmetic::div_mod::lemma_fundamental_div_mod(pos, b);
    vstd::arithmetic::div_mod::lemma_fundamental_div_mod_converse(
        pos + k,
        b,
        pos / b,
        pos % b + k,
    );
}

/// Swapping two entries leaves a sequence's multiset of values as it
/// was.
proof fn lemma_swap_multiset(s: Seq<u8>, a: int, b: int)
    requires
        0 <= a < s.len(),
        0 <= b < s.len(),
    ensures
        s.update(a, s[b]).update(b, s[a]).to_multiset() == s.to_multiset(),
{
    if a == b {
        assert(s.update(a, s[b]).update(b, s[a]) =~= s);
    } else {
        let s1 = s.update(a, s[b]);
        vstd::seq_lib::to_multiset_update(s, a, s[b]);
        vstd::seq_lib::to_multiset_update(s1, b, s[a]);
        vstd::seq_lib::to_multiset_contains(s, s[a]);
        vstd::seq_lib::to_multiset_contains(s, s[b]);
        assert(s.contains(s[a]));
        assert(s.contains(s[b]));
        assert(s1[b] == s[b]);
        assert(s1.update(b, s[a]).to_multiset() =~= s.to_multiset());
    }
}

/// Shape of the sbox construction states: length and index stay in
/// range, and the table's multiset of values never changes.
proof fn lemma_sbox_upto_props(key: Seq<u8>, j: int)
    requires
        key.len() >= 1,
        0 <= j <= key.len(),
    ensures
        sbox_upto(key, j).s.len() == key.len(),
        0 <= sbox_upto(key, j).i < key.len(),
        sbox_upto(key, j).s.to_multiset() == sbox_init(key.len() as int).to_multiset(),
    decreases j,
{
    if j > 0 {
        lemma_sbox_upto_props(key, j - 1);
        let st = sbox_upto(key, j - 1);
        let n = key.len() as int;
        let i2 = (st.i + key[j - 1] + st.s[j - 1]) % n;
        lemma_swap_multiset(st.s, i2, j - 1);
    }
}

/// Law: the constructed sbox is a rearrangement of the table it starts
/// from. Its bytes are, as a multiset, exactly those of `sbox_init`:
/// the indices `0..len` reduced to bytes. For keys of up to 256 bytes
/// that table is `0..len` itself, so the sbox is then a permutation of
/// `0..len`; longer keys repeat byte values in the initial table, so
/// bijectivity over `0..len` cannot hold for them.
pub proof fn lemma_sbox_permutation(key: Seq<u8>)
    requires
        key.len() >= 1,
    ensures
        sbox_of(key).len() == key.len(),
        sbox_of(key).to_multiset() == sbox_init(key.len() as int).to_multiset(),
{
    lemma_sbox_upto_props(key, key.len() as int);
}

impl TweakedRC4 {
    /// A usable permutation cipher: full-length key, matching sbox.
    pub open spec fn wf(&self) -> bool {
        &&& self.key@.len() == RC4_KEY_LEN
        &&& self.sbox@.len() == RC4_KEY_LEN
    }

    /// Builds the cipher state from a raw track key: scalar hash and
    /// scrambled sbox.
    pub fn new(key: Vec<u8>) -> (r: TweakedRC4)
        requires
            key@.len() == RC4_KEY_LEN,
        ensures
            r.key == key,
            r.hash == key_hash(key@),
            r.sbox@ == sbox_of(key@),
            r.sbox@.to_multiset() == sbox_init(RC4_KEY_LEN as int).to_multiset(),
            r.wf(),
    {
        let n = key.len();
        let mut hash: u32 = 1;
        let mut j: usize = 0;
        while j < n
            invariant_except_break
                n == key@.len(),
                j <= n,
                key_hash(key@) == key_hash_from(key@, j as int, hash),
            ensures
                hash == key_hash(key@),
            decreases n - j,
        {
            let b = key[j] as u32;
            proof {
                assert((hash as u64) * (b as u64) < 0x100_0000_0000) by (nonlinear_arith)
                    requires
                        hash < 0x1_0000_0000,
                        b < 0x100,
                ;
            }
            let tmp64: u64 = (hash as u64) * (b as u64);
            let tmp: u32 = (tmp64 % 0x1_0000_0000) as u32;
            if tmp == 0 || tmp <= hash {
                proof {
                    assert(key_hash_from(key@, j as int, hash) == hash);
                }
                break;
            }
            hash = tmp;
            j = j + 1;
        }

        let mut sbox: Vec<u8> = Vec::new();
        let mut k: usize = 0;
        while k < n
            invariant
                n == key@.len(),
                k <= n,
                sbox@ == sbox_init(k as int),
            decreases n - k,
        {
            sbox.push((k % 256) as u8);
            proof {
                assert(sbox@ =~= sbox_init(k + 1));
            }
            k = k + 1;
        }

        let mut i: usize = 0;
        let mut j2: usize = 0;
        while j2 < n
            invariant
                n == key@.len(),
                n == RC4_KEY_LEN,
                n >= 1,
                j2 <= n,
                sbox@ == sbox_upto(key@, j2 as int).s,
                i == sbox_upto(key@, j2 as int).i,
                sbox@.len() == n,
                i < n,
            decreases n - j2,
        {
            proof {
                lemma_sbox_upto_props(key@, j2 as int);
                lemma_sbox_upto_props(key@, j2 + 1);
            }
            i = (i + key[j2] as usize + sbox[j2] as usize) % n;
            let pi = sbox[i];
            let pj = sbox[j2];
            sbox.set(i, pj);
            sbox.set(j2, pi);
            j2 = j2 + 1;
        }

        proof {
            lemma_sbox_permutation(key@);
        }
        TweakedRC4 { key, hash, sbox }
    }

    /// The pseudo-random index for `seed`, computed in exact integer
    /// arithmetic: `floor(hash * 100 / d) mod 0x200`.
    fn pseudo_rand(&self, seed: usize) -> (r: usize)
        requires
            self.wf(),
        ensures
            r == pseudo_rand(self.key@, self.hash, seed as int),
            r < 0x200,
    {
        proof {
            lemma_mask9(seed);
        }
        let kb = self.key[seed & KEY_LEN_MASK] as u128;
        proof {
            assert(kb * (seed as u128 + 1) <= 0xFF * 0x1_0000_0000_0000_0000u128) by (
            nonlinear_arith)
                requires
                    kb <= 0xFF,
                    seed as u128 + 1 <= 0x1_0000_0000_0000_0000u128,
            ;
        }
        let d: u128 = kb * (seed as u128 + 1);
        if d == 0 {
            KEY_LEN_MASK
        } else {
            let q: u128 = (self.hash as u128) * 100 / d;
            proof {
                lemma_mask9_u128(q);
            }
            (q & 0x1FF) as usize
        }
    }

    /// Decrypts `n` bytes of `buf` at `buf[start..start+n]`, standing
    /// at absolute offset `pos`, all within one `BLOCK_SIZE`-aligned
    /// window: burns `pos mod BLOCK_SIZE` plus the window's
    /// pseudo-random count of scramble rounds, then XORs each byte
    /// with the following rounds' output.
    fn dec_part(&self, buf: &mut Vec<u8>, start: usize, pos: usize, n: usize)
        requires
            self.wf(),
            start + n <= old(buf)@.len(),
            pos as int % (BLOCK_SIZE as int) + n <= BLOCK_SIZE,
            pos + n <= usize::MAX,
        ensures
            final(buf)@.len() == old(buf)@.len(),
            forall|k: int|
                0 <= k < n ==> #[trigger] final(buf)@[start + k] == (old(buf)@[start + k]
                    ^ scramble_byte(
                    self.sbox@,
                    pos as int % (BLOCK_SIZE as int) + pseudo_rand(
                        self.key@,
                        self.hash,
                        pos as int / (BLOCK_SIZE as int),
                    ) + 1 + k,
                )),
            forall|x: int|
                0 <= x < old(buf)@.len() && !(start <= x < start + n) ==> final(buf)@[x] == old(
                    buf,
                )@[x],
    {
        let total = buf.len();
        let mut perm = vstd::slice::slice_to_vec(self.sbox.as_slice());
        let rounds = pos % BLOCK_SIZE + self.pseudo_rand(pos / BLOCK_SIZE);
        let end = n + rounds;
        let mut i: usize = 0;
        let mut j: usize = 1;
        while j <= end
            invariant
                self.wf(),
                1 <= j <= end + 1,
                end == n + rounds,
                rounds < BLOCK_SIZE + 0x200,
                n <= BLOCK_SIZE,
                start + n <= total,
                total == buf@.len(),
                buf@.len() == old(buf)@.len(),
                perm@ == sc_upto(self.sbox@, j - 1).s,
                i == sc_upto(self.sbox@, j - 1).i,
                perm@.len() == 0x200,
                i < 0x200,
                forall|k: int|
                    0 <= k && k + rounds + 1 < j ==> #[trigger] buf@[start + k] == (old(
                        buf,
                    )@[start + k] ^ scramble_byte(self.sbox@, rounds + 1 + k)),
                forall|x: int|
                    0 <= x < old(buf)@.len() && !(start <= x && x - start + rounds + 1 < j) ==> buf@[x]
                        == old(buf)@[x],
            decreases end + 1 - j,
        {
            proof {
                lemma_mask9(j);
            }
            let jm = j & KEY_LEN_MASK;
            let sum = i + perm[jm] as usize;
            proof {
                lemma_mask9(sum);
            }
            i = sum & KEY_LEN_MASK;
            let pi = perm[i];
            let pj = perm[jm];
            perm.set(i, pj);
            perm.set(jm, pi);
            proof {
                assert(perm@ =~= sc_upto(self.sbox@, j as int).s);
            }
            if j > rounds {
                let a = perm[i];
                let b = perm[jm];
                let sum2 = a as usize + b as usize;
                proof {
                    lemma_mask9(sum2);
                }
                let t = perm[sum2 & KEY_LEN_MASK];
                let outp = start + (j - rounds - 1);
                let cur = buf[outp];
                buf.set(outp, cur ^ t);
            }
            j = j + 1;
        }
    }

    /// Decrypts `dec_size` bytes of `buf` standing at absolute offset
    /// `cur_pos`: header-region bytes are XORed with pseudo-randomly
    /// selected key bytes, the rest window by window through the
    /// scramble; a range spanning a window boundary is split there and
    /// each part keyed independently. Later bytes of `buf` stay as
    /// they are.
    pub fn decrypt(&self, buf: &mut Vec<u8>, cur_pos: usize, dec_size: usize)
        requires
            self.wf(),
            dec_size <= old(buf)@.len(),
            cur_pos + dec_size <= usize::MAX,
        ensures
            final(buf)@.len() == old(buf)@.len(),
            forall|i: int|
                0 <= i < dec_size ==> final(buf)@[i] == (old(buf)@[i] ^ rc4_ks(
                    *self,
                    cur_pos + i,
                )),
            forall|i: int| dec_size <= i < old(buf)@.len() ==> final(buf)@[i] == old(buf)@[i],
    {
        let mut done: usize = 0;
        if cur_pos < HEADER_SIZE {
            while done < dec_size && cur_pos + done < HEADER_SIZE
                invariant
                    self.wf(),
                    done <= dec_size,
                    dec_size <= buf@.len(),
                    cur_pos + dec_size <= usize::MAX,
                    buf@.len() == old(buf)@.len(),
                    forall|k: int|
                        0 <= k < done ==> buf@[k] == (old(buf)@[k] ^ rc4_ks(*self, cur_pos + k)),
                    forall|k: int| done <= k < old(buf)@.len() ==> buf@[k] == old(buf)@[k],
                decreases dec_size - done,
            {
                let p = self.pseudo_rand(cur_pos + done);
                let cur = buf[done];
                buf.set(done, cur ^ self.key[p]);
                done = done + 1;
            }
        }
        while done < dec_size
            invariant
                self.wf(),
                done <= dec_size,
                dec_size <= buf@.len(),
                cur_pos + dec_size <= usize::MAX,
                buf@.len() == old(buf)@.len(),
                done < dec_size ==> cur_pos + done >= HEADER_SIZE,
                forall|k: int|
                    0 <= k < done ==> buf@[k] == (old(buf)@[k] ^ rc4_ks(*self, cur_pos + k)),
                forall|k: int| done <= k < old(buf)@.len() ==> buf@[k] == old(buf)@[k],
            decreases dec_size - done,
        {
            let pos = cur_pos + done;
            let rem = BLOCK_SIZE - pos % BLOCK_SIZE;
            let left = dec_size - done;
            let m = if left < rem {
                left
            } else {
                rem
            };
            let ghost pre = buf@;
            self.dec_part(buf, done, pos, m);
            proof {
                assert forall|k: int| 0 <= k < done + m implies buf@[k] == (old(buf)@[k] ^ rc4_ks(
                    *self,
                    cur_pos + k,
                )) by {
                    if done <= k < done + m {
                        let kk = k - done;
                        lemma_same_window(pos as int, kk);
                        assert(buf@[done + kk] == (pre[done + kk] ^ scramble_byte(
                            self.sbox@,
                            pos as int % (BLOCK_SIZE as int) + pseudo_rand(
                                self.key@,
                                self.hash,
                                pos as int / (BLOCK_SIZE as int),
                            ) + 1 + kk,
                        )));
                    }
                }
            }
            done = done + m;
        }
    }
}

} // verus!
