//! The core transform: the keyed XOR mask and the keyed permutation.
//!
//! Encryption masks every plaintext byte with a key- and base-dependent
//! offset, then scrambles the masked body with a sequence of swaps whose
//! targets are derived from a checksum of the body itself. Both running
//! values that feed the checksum (the XOR and the sum of the bytes)
//! survive the swaps, so decryption can recompute the same swap targets
//! from the scrambled body and undo the swaps in descending order.

use vstd::prelude::*;

use crate::codecs::{crc64_we_of, crc8_cdma2000_of};
use crate::folds::{
    byte_sum, lemma_byte_sum_update, lemma_xor_fold_update, u64_be_bytes, wrap_u64, xor_fold,
};

verus! {

/// The XOR offset applied at position `i`.
pub open spec fn offset_at(hk: Seq<u8>, base: u8, i: int) -> u8
    recommends
        hk.len() == 8,
{
    hk[i % 8] ^ base
}

/// `data` with every byte XOR-masked by its position's offset.
pub open spec fn mask(hk: Seq<u8>, base: u8, data: Seq<u8>) -> Seq<u8> {
    Seq::new(data.len(), |i: int| data[i] ^ offset_at(hk, base, i))
}

/// The byte that folds the base and the body by XOR.
pub open spec fn mix_m(base: u8, s: Seq<u8>) -> u8 {
    base ^ xor_fold(s)
}

/// The wrapping 64-bit sum of the base and the body bytes.
pub open spec fn mix_sum(base: u8, s: Seq<u8>) -> u64 {
    wrap_u64(base + byte_sum(s))
}

/// The swap target of every position, derived from the CRC-64/WE of the
/// mixed byte followed by the big-endian mixed sum.
pub open spec fn perm_path(hk: Seq<u8>, base: u8, s: Seq<u8>) -> Seq<int> {
    let h = crc64_we_of(seq![mix_m(base, s)] + u64_be_bytes(mix_sum(base, s)));
    let hb = u64_be_bytes(h);
    Seq::new(s.len(), |i: int| ((hb[i % 8] ^ hk[i % 8]) as int) % (s.len() as int))
}

/// The exchange of positions `i` and `j`.
pub open spec fn seq_swap(s: Seq<u8>, i: int, j: int) -> Seq<u8> {
    s.update(i, s[j]).update(j, s[i])
}

/// The swaps `(i, p[i])` for `i` below `k`, applied in ascending order.
pub open spec fn apply_swaps(s: Seq<u8>, p: Seq<int>, k: int) -> Seq<u8>
    decreases k,
{
    if k <= 0 {
        s
    } else {
        seq_swap(apply_swaps(s, p, k - 1), k - 1, p[k - 1])
    }
}

/// The same swaps, applied in descending order.
pub open spec fn undo_swaps(s: Seq<u8>, p: Seq<int>, k: int) -> Seq<u8>
    decreases k,
{
    if k <= 0 {
        s
    } else {
        undo_swaps(seq_swap(s, k - 1, p[k - 1]), p, k - 1)
    }
}

/// Every entry of `p` is a position of a string of length `n`.
pub open spec fn path_in_range(p: Seq<int>, n: int) -> bool {
    forall|i: int| 0 <= i < p.len() ==> 0 <= #[trigger] p[i] < n
}

/// The scrambled body: the swaps that the body's own folds dictate.
pub open spec fn scramble(hk: Seq<u8>, base: u8, c0: Seq<u8>) -> Seq<u8> {
    apply_swaps(c0, perm_path(hk, base, c0), c0.len() as int)
}

/// The unscrambled body: the same swaps undone in descending order.
pub open spec fn unscramble(hk: Seq<u8>, base: u8, c: Seq<u8>) -> Seq<u8> {
    undo_swaps(c, perm_path(hk, base, c), c.len() as int)
}

/// The base of a plaintext: its CRC-8/CDMA2000 reduced below 32.
pub open spec fn encrypt_base_of(p: Seq<u8>) -> u8 {
    crc8_cdma2000_of(p) % 32
}

/// The cipher body of a plaintext under a key digest and a base.
pub open spec fn encrypt_body_of(hk: Seq<u8>, base: u8, p: Seq<u8>) -> Seq<u8> {
    scramble(hk, base, mask(hk, base, p))
}

/// The plaintext recovered from a cipher body under a key digest and a base.
pub open spec fn decrypt_of(hk: Seq<u8>, base: u8, c: Seq<u8>) -> Seq<u8> {
    mask(hk, base, unscramble(hk, base, c))
}

/// Masking twice with the same offsets is the identity.
pub proof fn lemma_mask_involutive(hk: Seq<u8>, base: u8, data: Seq<u8>)
    requires
        hk.len() == 8,
    ensures
        mask(hk, base, mask(hk, base, data)) == data,
{
    let once = mask(hk, base, data);
    let twice = mask(hk, base, once);
    assert forall|i: int| 0 <= i < data.len() implies twice[i] == data[i] by {
        let o = offset_at(hk, base, i);
        let d = data[i];
        assert((d ^ o) ^ o == d) by (bit_vector);
    }
    assert(twice =~= data);
}

/// The entries of a permutation path are valid positions.
pub proof fn lemma_perm_path_in_range(hk: Seq<u8>, base: u8, s: Seq<u8>)
    requires
        s.len() > 0,
    ensures
        perm_path(hk, base, s).len() == s.len(),
        path_in_range(perm_path(hk, base, s), s.len() as int),
{
    let p = perm_path(hk, base, s);
    let n = s.len() as int;
    assert forall|i: int| 0 <= i < p.len() implies 0 <= #[trigger] p[i] < n by {
        let h = crc64_we_of(seq![mix_m(base, s)] + u64_be_bytes(mix_sum(base, s)));
        let hb = u64_be_bytes(h);
        let x = (hb[i % 8] ^ hk[i % 8]) as int;
        vstd::arithmetic::div_mod::lemma_mod_division_less_than_divisor(x, n);
    }
}

/// A swap exchanges two bytes and leaves everything else alone; doing it
/// twice is the identity.
pub proof fn lemma_swap_involutive(s: Seq<u8>, i: int, j: int)
    requires
        0 <= i < s.len(),
        0 <= j < s.len(),
    ensures
        seq_swap(s, i, j).len() == s.len(),
        seq_swap(seq_swap(s, i, j), i, j) == s,
{
    assert(seq_swap(seq_swap(s, i, j), i, j) =~= s);
}

/// A swap changes neither the XOR fold nor the byte sum.
pub proof fn lemma_swap_preserves_folds(s: Seq<u8>, i: int, j: int)
    requires
        0 <= i < s.len(),
        0 <= j < s.len(),
    ensures
        xor_fold(seq_swap(s, i, j)) == xor_fold(s),
        byte_sum(seq_swap(s, i, j)) == byte_sum(s),
{
    if i == j {
        assert(seq_swap(s, i, j) =~= s);
    } else {
        let t = s.update(i, s[j]);
        lemma_xor_fold_update(s, i, s[j]);
        lemma_xor_fold_update(t, j, s[i]);
        lemma_byte_sum_update(s, i, s[j]);
        lemma_byte_sum_update(t, j, s[i]);
        let f = xor_fold(s);
        let a = s[i];
        let b = s[j];
        assert(((((f ^ a) ^ b) ^ b) ^ a) == f) by (bit_vector);
    }
}

/// The whole ascending swap pass changes neither fold.
pub proof fn lemma_apply_swaps_preserves_folds(s: Seq<u8>, p: Seq<int>, k: int)
    requires
        p.len() == s.len(),
        path_in_range(p, s.len() as int),
        0 <= k <= s.len(),
    ensures
        apply_swaps(s, p, k).len() == s.len(),
        xor_fold(apply_swaps(s, p, k)) == xor_fold(s),
        byte_sum(apply_swaps(s, p, k)) == byte_sum(s),
    decreases k,
{
    if k > 0 {
        lemma_apply_swaps_preserves_folds(s, p, k - 1);
        let u = apply_swaps(s, p, k - 1);
        lemma_swap_preserves_folds(u, k - 1, p[k - 1]);
        assert(seq_swap(u, k - 1, p[k - 1]).len() == s.len());
    }
}

/// Undoing the swaps in descending order inverts applying them in
/// ascending order.
pub proof fn lemma_undo_apply_swaps(s: Seq<u8>, p: Seq<int>, k: int)
    requires
        p.len() == s.len(),
        path_in_range(p, s.len() as int),
        0 <= k <= s.len(),
    ensures
        undo_swaps(apply_swaps(s, p, k), p, k) == s,
    decreases k,
{
    if k > 0 {
        lemma_apply_swaps_preserves_folds(s, p, k - 1);
        let u = apply_swaps(s, p, k - 1);
        lemma_swap_involutive(u, k - 1, p[k - 1]);
        lemma_undo_apply_swaps(s, p, k - 1);
    }
}

/// Unscrambling what scramble produced gives the masked body back: the
/// scrambled body has the same folds, hence the same permutation path.
pub proof fn lemma_unscramble_scramble(hk: Seq<u8>, base: u8, c0: Seq<u8>)
    ensures
        unscramble(hk, base, scramble(hk, base, c0)) == c0,
{
    let n = c0.len() as int;
    if n == 0 {
        assert(scramble(hk, base, c0) == c0);
        assert(unscramble(hk, base, c0) == c0);
    } else {
        let p = perm_path(hk, base, c0);
        lemma_perm_path_in_range(hk, base, c0);
        lemma_apply_swaps_preserves_folds(c0, p, n);
        let c = scramble(hk, base, c0);
        assert(perm_path(hk, base, c) =~= p);
        lemma_undo_apply_swaps(c0, p, n);
    }
}

/// Decrypting what encrypt produced, with the base encrypt produced,
/// gives the plaintext back, whatever the key digest and the plaintext.
pub proof fn lemma_decrypt_round_trip(hk: Seq<u8>, p: Seq<u8>)
    requires
        hk.len() == 8,
    ensures
        decrypt_of(hk, encrypt_base_of(p), encrypt_body_of(hk, encrypt_base_of(p), p)) == p,
{
    let base = encrypt_base_of(p);
    let c0 = mask(hk, base, p);
    lemma_unscramble_scramble(hk, base, c0);
    lemma_mask_involutive(hk, base, p);
}

pub proof fn lemma_undo_swaps_len(s: Seq<u8>, p: Seq<int>, k: int)
    requires
        p.len() == s.len(),
        path_in_range(p, s.len() as int),
        0 <= k <= s.len(),
    ensures
        undo_swaps(s, p, k).len() == s.len(),
    decreases k,
{
    if k > 0 {
        lemma_undo_swaps_len(seq_swap(s, k - 1, p[k - 1]), p, k - 1);
    }
}

/// The recovered plaintext is exactly as long as the cipher body.
pub proof fn lemma_decrypt_len(hk: Seq<u8>, base: u8, c: Seq<u8>)
    ensures
        decrypt_of(hk, base, c).len() == c.len(),
{
    if c.len() > 0 {
        lemma_perm_path_in_range(hk, base, c);
        lemma_undo_swaps_len(c, perm_path(hk, base, c), c.len() as int);
    }
}

} // verus!
