//! The key handle and the raw encrypt/decrypt pair.

use vstd::prelude::*;
use vstd::slice::slice_to_vec;
use vstd::string::{StringSliceAdditionalSpecFns, StrSliceExecFns};

use crate::codecs::{crc64_we, crc64_we_of, crc8_cdma2000};
use crate::folds::{
    byte_sum, lemma_byte_sum_nonneg, lemma_byte_sum_push, lemma_wrap_u64_add, lemma_xor_fold_push,
    u64_be_bytes, u64_modulus, wrap_u64, xor_fold,
};
use crate::transform::{
    apply_swaps, decrypt_of, encrypt_base_of, encrypt_body_of, lemma_decrypt_len, mask, mix_m,
    mix_sum, offset_at, perm_path, seq_swap, undo_swaps,
};

verus! {

/// A cipher pair: the base in `[0, 31]` and the body, as long as the
/// plaintext it came from.
pub type Cipher = (u8, Vec<u8>);

/// The mathematical content of a key handle.
pub ghost struct KeyState {
    /// The big-endian CRC-64/WE of the key, the repeating XOR pad.
    pub hashed_key: Seq<u8>,
    /// The bit-reversed wrapping sum of the key bytes.
    pub key_sum_rev: u64,
}

/// A key handle. Construction digests the key once; the handle is
/// immutable afterwards. This is an obfuscator, not a secure cipher:
/// the same plaintext and key always yield the same ciphertext.
#[derive(Debug)]
pub struct ShortCrypt {
    pub hashed_key: [u8; 8],
    pub key_sum_rev: u64,
}

impl View for ShortCrypt {
    type V = KeyState;

    open spec fn view(&self) -> KeyState {
        KeyState { hashed_key: self.hashed_key@, key_sum_rev: self.key_sum_rev }
    }
}

/// The eight big-endian bytes of `x`, as a vector.
pub(crate) fn u64_to_be_bytes(x: u64) -> (r: Vec<u8>)
    ensures
        r@ == u64_be_bytes(x),
{
    let mut r: Vec<u8> = Vec::with_capacity(8);
    r.push((x >> 56) as u8);
    r.push((x >> 48) as u8);
    r.push((x >> 40) as u8);
    r.push((x >> 32) as u8);
    r.push((x >> 24) as u8);
    r.push((x >> 16) as u8);
    r.push((x >> 8) as u8);
    r.push(x as u8);
    proof {
        assert(r@ =~= u64_be_bytes(x));
    }
    r
}

/// The CRC-64/WE of the mix byte followed by the big-endian mix sum,
/// as eight big-endian bytes: the seed of the permutation path.
fn path_seed(m: u8, sum: u64) -> (r: Vec<u8>)
    ensures
        r@ == u64_be_bytes(crc64_we_of(seq![m] + u64_be_bytes(sum))),
{
    let mut crc_in: Vec<u8> = Vec::with_capacity(9);
    crc_in.push(m);
    let mut sum_be = u64_to_be_bytes(sum);
    crc_in.append(&mut sum_be);
    proof {
        assert(crc_in@ =~= seq![m] + u64_be_bytes(sum));
    }
    let h = crc64_we(crc_in.as_slice());
    u64_to_be_bytes(h)
}

impl ShortCrypt {
    /// Create a key handle: digest the key into the XOR pad and the
    /// bit-reversed byte sum.
    #[verifier::loop_isolation(false)]
    pub fn new(key: &str) -> (sc: ShortCrypt)
        ensures
            sc@.hashed_key == u64_be_bytes(crc64_we_of(key.spec_bytes())),
            sc@.hashed_key.len() == 8,
            forall|i: u64|
                i < 64 ==> #[trigger] ((sc@.key_sum_rev >> i) & 1) == (wrap_u64(
                    byte_sum(key.spec_bytes()),
                ) >> ((63 - i) as u64)) & 1,
    {
        let key_bytes: Vec<u8> = key.as_bytes_vec();
        let h = crc64_we(key_bytes.as_slice());
        let hashed_vec = u64_to_be_bytes(h);
        let hashed_key: [u8; 8] = [
            hashed_vec[0],
            hashed_vec[1],
            hashed_vec[2],
            hashed_vec[3],
            hashed_vec[4],
            hashed_vec[5],
            hashed_vec[6],
            hashed_vec[7],
        ];
        proof {
            assert(hashed_key@ =~= u64_be_bytes(h));
        }
        let len = key_bytes.len();
        let mut key_sum: u64 = 0;
        let mut i: usize = 0;
        while i < len
            invariant
                i <= len == key_bytes@.len(),
                key_sum == wrap_u64(byte_sum(key_bytes@.subrange(0, i as int))),
            decreases len - i,
        {
            let v = key_bytes[i];
            proof {
                let prefix = key_bytes@.subrange(0, i as int);
                assert(key_bytes@.subrange(0, i + 1 as int).drop_last() =~= prefix);
                lemma_byte_sum_nonneg(prefix);
                lemma_wrap_u64_add(byte_sum(prefix), v as u64);
            }
            key_sum = key_sum.wrapping_add(v as u64);
            i += 1;
        }
        proof {
            assert(key_bytes@.subrange(0, len as int) =~= key_bytes@);
        }
        let key_sum_rev = crate::codecs::reverse_bits_u64(key_sum);
        ShortCrypt { hashed_key, key_sum_rev }
    }

    /// Encrypt a plaintext into a cipher pair: the base is the
    /// plaintext's checksum reduced below 32, the body is the masked and
    /// scrambled plaintext, exactly as long as the plaintext itself.
    #[verifier::loop_isolation(false)]
    pub fn encrypt(&self, plaintext: &[u8]) -> (r: Cipher)
        ensures
            r.0 == encrypt_base_of(plaintext@),
            r.0 < 32,
            r.1@ == encrypt_body_of(self@.hashed_key, r.0, plaintext@),
            r.1@.len() == plaintext@.len(),
    {
        let ghost hk = self@.hashed_key;
        let len = plaintext.len();
        let h8 = crc8_cdma2000(plaintext);
        let base = h8 % 32;
        let mut encrypted: Vec<u8> = Vec::with_capacity(len);
        let mut m: u8 = base;
        let mut sum: u64 = base as u64;
        proof {
            vstd::arithmetic::div_mod::lemma_small_mod(base as nat, u64_modulus() as nat);
            assert(base ^ 0 == base) by (bit_vector);
        }
        let mut i: usize = 0;
        while i < len
            invariant
                i <= len == plaintext@.len(),
                hk == self.hashed_key@,
                encrypted@ == mask(hk, base, plaintext@.subrange(0, i as int)),
                encrypted@.len() == i,
                m == mix_m(base, encrypted@),
                sum == mix_sum(base, encrypted@),
            decreases len - i,
        {
            let offset = self.hashed_key[i % 8] ^ base;
            let v = plaintext[i] ^ offset;
            proof {
                let prev = encrypted@;
                lemma_xor_fold_push(prev, v);
                let f = xor_fold(prev);
                assert(base ^ (f ^ v) == (base ^ f) ^ v) by (bit_vector);
                lemma_byte_sum_nonneg(prev);
                lemma_byte_sum_push(prev, v);
                lemma_wrap_u64_add(base + byte_sum(prev), v as u64);
                assert(mask(hk, base, plaintext@.subrange(0, i + 1 as int)) =~= prev.push(v));
            }
            encrypted.push(v);
            m = m ^ v;
            sum = sum.wrapping_add(v as u64);
            i += 1;
        }
        proof {
            assert(plaintext@.subrange(0, len as int) =~= plaintext@);
        }
        let ghost c0 = encrypted@;
        let hb = path_seed(m, sum);
        let ghost pspec = perm_path(hk, base, c0);
        let mut path: Vec<usize> = Vec::with_capacity(len);
        let mut i: usize = 0;
        while i < len
            invariant
                i <= len,
                len == c0.len(),
                hb@ == u64_be_bytes(crc64_we_of(seq![mix_m(base, c0)] + u64_be_bytes(mix_sum(base, c0)))),
                path@.len() == i,
                forall|t: int| 0 <= t < i ==> #[trigger] (path@[t] as int) == pspec[t],
                forall|t: int| 0 <= t < i ==> #[trigger] path@[t] < len,
            decreases len - i,
        {
            let index = i % 8;
            let pv = ((hb[index] ^ self.hashed_key[index]) as usize) % len;
            proof {
                let ii = i as int;
                let x = hb@[ii % 8] ^ hk[ii % 8];
                vstd::arithmetic::div_mod::lemma_mod_division_less_than_divisor(
                    x as int,
                    len as int,
                );
                assert(pspec[ii] == (x as int) % (len as int));
                assert(pv as int == (x as int) % (len as int));
            }
            path.push(pv);
            i += 1;
        }
        let mut i: usize = 0;
        while i < len
            invariant
                i <= len,
                len == c0.len(),
                encrypted@.len() == len,
                encrypted@ == apply_swaps(c0, pspec, i as int),
                path@.len() == len,
                forall|t: int| 0 <= t < len ==> #[trigger] (path@[t] as int) == pspec[t],
                forall|t: int| 0 <= t < len ==> #[trigger] path@[t] < len,
            decreases len - i,
        {
            let p = path[i];
            let ghost before = encrypted@;
            if i != p {
                let a = encrypted[i];
                let b = encrypted[p];
                encrypted[i] = b;
                encrypted[p] = a;
            }
            proof {
                if i == p {
                    assert(seq_swap(before, i as int, pspec[i as int]) =~= before);
                }
                assert(encrypted@ == seq_swap(before, i as int, pspec[i as int]));
            }
            i += 1;
        }
        (base, encrypted)
    }

    /// Decrypt a cipher pair. Fails exactly when the base exceeds 31; a
    /// wrong key or a corrupted body is not detected and yields garbage
    /// of the body's length.
    pub fn decrypt(&self, data: &Cipher) -> (r: Result<Vec<u8>, &'static str>)
        ensures
            r is Ok <==> data.0 <= 31,
            r matches Ok(v) ==> v@ == decrypt_of(self@.hashed_key, data.0, data.1@),
            r matches Ok(v) ==> v@.len() == data.1@.len(),
            r matches Err(e) ==> e@ == "The base is not correct."@,
    {
        let base = data.0;
        if base > 31 {
            return Err("The base is not correct.");
        }
        let mut decrypted: Vec<u8> = Vec::with_capacity(data.1.len());
        self.decrypt_inner(base, data.1.as_slice(), &mut decrypted);
        proof {
            lemma_decrypt_len(self@.hashed_key, base, data.1@);
        }
        Ok(decrypted)
    }

    /// Undo the transform of `encrypt` and push the plaintext onto
    /// `output`: recompute the folds from the body, undo the swaps in
    /// descending order, then strip the XOR mask.
    #[verifier::loop_isolation(false)]
    pub(crate) fn decrypt_inner(&self, base: u8, data: &[u8], output: &mut Vec<u8>)
        ensures
            final(output)@ == old(output)@ + decrypt_of(self@.hashed_key, base, data@),
    {
        let ghost hk = self@.hashed_key;
        let len = data.len();
        let mut m: u8 = base;
        let mut sum: u64 = base as u64;
        proof {
            vstd::arithmetic::div_mod::lemma_small_mod(base as nat, u64_modulus() as nat);
            assert(base ^ 0 == base) by (bit_vector);
            assert(data@.subrange(0, 0) =~= Seq::<u8>::empty());
        }
        let mut i: usize = 0;
        while i < len
            invariant
                i <= len == data@.len(),
                m == mix_m(base, data@.subrange(0, i as int)),
                sum == mix_sum(base, data@.subrange(0, i as int)),
            decreases len - i,
        {
            let v = data[i];
            proof {
                let prefix = data@.subrange(0, i as int);
                assert(data@.subrange(0, i + 1 as int) =~= prefix.push(v));
                lemma_xor_fold_push(prefix, v);
                let f = xor_fold(prefix);
                assert(base ^ (f ^ v) == (base ^ f) ^ v) by (bit_vector);
                lemma_byte_sum_nonneg(prefix);
                lemma_byte_sum_push(prefix, v);
                lemma_wrap_u64_add(base + byte_sum(prefix), v as u64);
            }
            m = m ^ v;
            sum = sum.wrapping_add(v as u64);
            i += 1;
        }
        proof {
            assert(data@.subrange(0, len as int) =~= data@);
        }
        let hb = path_seed(m, sum);
        let ghost pspec = perm_path(hk, base, data@);
        let mut path: Vec<usize> = Vec::with_capacity(len);
        let mut i: usize = 0;
        while i < len
            invariant
                i <= len == data@.len(),
                hb@ == u64_be_bytes(crc64_we_of(seq![mix_m(base, data@)] + u64_be_bytes(mix_sum(base, data@)))),
                path@.len() == i,
                forall|t: int| 0 <= t < i ==> #[trigger] (path@[t] as int) == pspec[t],
                forall|t: int| 0 <= t < i ==> #[trigger] path@[t] < len,
            decreases len - i,
        {
            let index = i % 8;
            let pv = ((hb[index] ^ self.hashed_key[index]) as usize) % len;
            proof {
                let ii = i as int;
                let x = hb@[ii % 8] ^ hk[ii % 8];
                vstd::arithmetic::div_mod::lemma_mod_division_less_than_divisor(
                    x as int,
                    len as int,
                );
                assert(pspec[ii] == (x as int) % (len as int));
                assert(pv as int == (x as int) % (len as int));
            }
            path.push(pv);
            i += 1;
        }
        let mut w: Vec<u8> = slice_to_vec(data);
        let mut i: usize = len;
        while i > 0
            invariant
                i <= len == data@.len(),
                w@.len() == len,
                undo_swaps(data@, pspec, len as int) == undo_swaps(w@, pspec, i as int),
                path@.len() == len,
                forall|t: int| 0 <= t < len ==> #[trigger] (path@[t] as int) == pspec[t],
                forall|t: int| 0 <= t < len ==> #[trigger] path@[t] < len,
            decreases i,
        {
            i -= 1;
            let p = path[i];
            let ghost before = w@;
            if i != p {
                let a = w[i];
                let b = w[p];
                w[i] = b;
                w[p] = a;
            }
            proof {
                if i == p {
                    assert(seq_swap(before, i as int, pspec[i as int]) =~= before);
                }
                assert(w@ == seq_swap(before, i as int, pspec[i as int]));
            }
        }
        proof {
            assert(w@ == undo_swaps(data@, pspec, len as int));
        }
        let ghost out0 = output@;
        let mut i: usize = 0;
        while i < len
            invariant
                i <= len == data@.len(),
                w@.len() == len,
                hk == self.hashed_key@,
                w@ == undo_swaps(data@, pspec, len as int),
                output@ == out0 + mask(hk, base, w@).subrange(0, i as int),
            decreases len - i,
        {
            let offset = self.hashed_key[i % 8] ^ base;
            proof {
                assert(mask(hk, base, w@).subrange(0, i + 1 as int) =~= mask(hk, base, w@).subrange(
                    0,
                    i as int,
                ).push(w@[i as int] ^ offset_at(hk, base, i as int)));
            }
            output.push(w[i] ^ offset);
            i += 1;
        }
        proof {
            assert(mask(hk, base, w@).subrange(0, len as int) =~= mask(hk, base, w@));
        }
    
    }
}

} // verus!
