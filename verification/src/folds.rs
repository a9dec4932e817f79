//! Byte-string folds and the facts about them that the cipher needs.
//!
//! The transform keeps two running values over a byte string: the XOR of
//! its bytes and their sum. Both survive any exchange of two positions,
//! which is what lets decryption recompute them from the permuted body.

use vstd::prelude::*;

verus! {

/// The XOR of all bytes of `s`.
pub open spec fn xor_fold(s: Seq<u8>) -> u8
    decreases s.len(),
{
    if s.len() == 0 {
        0u8
    } else {
        xor_fold(s.drop_last()) ^ s.last()
    }
}

/// The exact (unbounded) sum of the bytes of `s`.
pub open spec fn byte_sum(s: Seq<u8>) -> int
    decreases s.len(),
{
    if s.len() == 0 {
        0
    } else {
        byte_sum(s.drop_last()) + s.last()
    }
}

/// One more than `u64::MAX`: the modulus of wrapping 64-bit arithmetic.
pub open spec fn u64_modulus() -> int {
    0x1_0000_0000_0000_0000
}

/// `x` reduced into a `u64` the way wrapping arithmetic does.
pub open spec fn wrap_u64(x: int) -> u64 {
    (x % u64_modulus()) as u64
}

/// The eight bytes of `x` in big-endian order.
pub open spec fn u64_be_bytes(x: u64) -> Seq<u8> {
    seq![
        (x >> 56) as u8,
        (x >> 48) as u8,
        (x >> 40) as u8,
        (x >> 32) as u8,
        (x >> 24) as u8,
        (x >> 16) as u8,
        (x >> 8) as u8,
        x as u8,
    ]
}

pub proof fn lemma_xor_fold_push(s: Seq<u8>, v: u8)
    ensures
        xor_fold(s.push(v)) == xor_fold(s) ^ v,
{
    assert(s.push(v).drop_last() =~= s);
}

pub proof fn lemma_byte_sum_push(s: Seq<u8>, v: u8)
    ensures
        byte_sum(s.push(v)) == byte_sum(s) + v,
{
    assert(s.push(v).drop_last() =~= s);
}

pub proof fn lemma_xor_fold_update(s: Seq<u8>, k: int, v: u8)
    requires
        0 <= k < s.len(),
    ensures
        xor_fold(s.update(k, v)) == (xor_fold(s) ^ s[k]) ^ v,
    decreases s.len(),
{
    let f = xor_fold(s.drop_last());
    if k == s.len() - 1 {
        assert(s.update(k, v).drop_last() =~= s.drop_last());
        let a = s[k];
        assert(f ^ v == ((f ^ a) ^ a) ^ v) by (bit_vector);
    } else {
        assert(s.update(k, v).drop_last() =~= s.drop_last().update(k, v));
        lemma_xor_fold_update(s.drop_last(), k, v);
        let a = s[k];
        let l = s.last();
        assert(((f ^ a) ^ v) ^ l == ((f ^ l) ^ a) ^ v) by (bit_vector);
    }
}

pub proof fn lemma_byte_sum_update(s: Seq<u8>, k: int, v: u8)
    requires
        0 <= k < s.len(),
    ensures
        byte_sum(s.update(k, v)) == byte_sum(s) - s[k] + v,
    decreases s.len(),
{
    if k == s.len() - 1 {
        assert(s.update(k, v).drop_last() =~= s.drop_last());
    } else {
        assert(s.update(k, v).drop_last() =~= s.drop_last().update(k, v));
        lemma_byte_sum_update(s.drop_last(), k, v);
    }
}

pub proof fn lemma_byte_sum_concat(a: Seq<u8>, b: Seq<u8>)
    ensures
        byte_sum(a + b) == byte_sum(a) + byte_sum(b),
    decreases b.len(),
{
    if b.len() == 0 {
        assert(a + b =~= a);
    } else {
        assert((a + b).drop_last() =~= a + b.drop_last());
        lemma_byte_sum_concat(a, b.drop_last());
    }
}

/// Inserting a byte anywhere adds its value to the sum.
pub proof fn lemma_byte_sum_insert(s: Seq<u8>, k: int, v: u8)
    requires
        0 <= k <= s.len(),
    ensures
        byte_sum(s.insert(k, v)) == byte_sum(s) + v,
{
    let front = s.subrange(0, k);
    let back = s.subrange(k, s.len() as int);
    assert(s.insert(k, v) =~= front.push(v) + back);
    lemma_byte_sum_concat(front.push(v), back);
    lemma_byte_sum_push(front, v);
    assert(s =~= front + back);
    lemma_byte_sum_concat(front, back);
}

pub proof fn lemma_byte_sum_nonneg(s: Seq<u8>)
    ensures
        byte_sum(s) >= 0,
    decreases s.len(),
{
    if s.len() > 0 {
        lemma_byte_sum_nonneg(s.drop_last());
    }
}

/// How one wrapping 64-bit addition moves a sum that is tracked modulo
/// two to the sixty-fourth.
pub proof fn lemma_wrap_u64_add(x: int, v: u64)
    requires
        x >= 0,
    ensures
        wrap_u64(x) + v <= u64::MAX ==> wrap_u64(x + v) == wrap_u64(x) + v,
        wrap_u64(x) + v > u64::MAX ==> wrap_u64(x + v) == wrap_u64(x) + v - u64_modulus(),
{
    let m = u64_modulus();
    vstd::arithmetic::div_mod::lemma_mod_division_less_than_divisor(x, m);
    vstd::arithmetic::div_mod::lemma_add_mod_noop(x, v as int, m);
    vstd::arithmetic::div_mod::lemma_small_mod(v as nat, m as nat);
    let t = (x % m) + v;
    if t < m {
        vstd::arithmetic::div_mod::lemma_small_mod(t as nat, m as nat);
    } else {
        vstd::arithmetic::div_mod::lemma_mod_multiples_vanish(1, t - m, m);
        vstd::arithmetic::div_mod::lemma_small_mod((t - m) as nat, m as nat);
    }
}

/// Removing the byte that an insertion put in gives the string back.
pub proof fn lemma_remove_insert(s: Seq<u8>, k: int, v: u8)
    requires
        0 <= k <= s.len(),
    ensures
        s.insert(k, v).remove(k) == s,
        s.insert(k, v)[k] == v,
        s.insert(k, v).len() == s.len() + 1,
{
    s.insert_ensures(k, v);
    s.insert(k, v).remove_ensures(k);
    assert(s.insert(k, v).remove(k) =~= s);
}

} // verus!
