//! The transport layer: one opaque text carrying base and body.
//!
//! The body is base-encoded, the base becomes one character of the same
//! alphabet, and that character is inserted at a position derived from the
//! key and from the byte sum of the text. On decode the same sum over the
//! whole text lands on the same position: inserting the character changes
//! the sum by exactly the character's byte value, which the embedding
//! position already accounted for.

use vstd::prelude::*;
use vstd::string::{StrSliceExecFns, StringExecFns, StringSliceAdditionalSpecFns};
use vstd::utf8::{encode_utf8, is_ascii_chars};

use crate::alphabet::{
    lemma_digits_are_ascii, lemma_qr_digit_round_trip, lemma_url_digit_round_trip, qr_char,
    qr_char_of, qr_val, qr_val_of, url_char, url_char_of, url_val, url_val_of,
};
use crate::codecs::{
    ascii_chars_of, ascii_string, base32_decode, base32_decoding_of, base32_encode,
    base32_encoding_of, base64_url_decode, base64_url_decoding_of, base64_url_encode,
    base64_url_encoding_of,
};
use crate::folds::{
    byte_sum, lemma_byte_sum_insert, lemma_byte_sum_nonneg, lemma_byte_sum_push,
    lemma_remove_insert, lemma_wrap_u64_add, u64_modulus, wrap_u64,
};
use crate::shortcrypt::ShortCrypt;
use crate::transform::{decrypt_of, encrypt_base_of, encrypt_body_of, lemma_decrypt_round_trip};

verus! {

/// Where the base character lands: the key xor the wrapping sum of the
/// base character and the encoded body, reduced to an insertion position.
pub open spec fn embed_pos(ksr: u64, bc: u8, b: Seq<u8>) -> int {
    ((ksr ^ wrap_u64(bc + byte_sum(b))) as int) % (b.len() as int + 1)
}

/// Where the base character is looked for: the key xor the wrapping sum
/// of the whole text, reduced to a position inside it.
pub open spec fn extract_pos(ksr: u64, t: Seq<u8>) -> int
    recommends
        t.len() > 0,
{
    ((ksr ^ wrap_u64(byte_sum(t))) as int) % (t.len() as int)
}

/// The URL-safe transport text of a plaintext, as ASCII bytes.
pub open spec fn url_transport_of(hk: Seq<u8>, ksr: u64, p: Seq<u8>) -> Seq<u8> {
    let base = encrypt_base_of(p);
    let b = base64_url_encoding_of(encrypt_body_of(hk, base, p));
    let bc = url_char_of(base);
    b.insert(embed_pos(ksr, bc, b), bc)
}

/// The QR-alphanumeric transport text of a plaintext, as ASCII bytes.
pub open spec fn qr_transport_of(hk: Seq<u8>, ksr: u64, p: Seq<u8>) -> Seq<u8> {
    let base = encrypt_base_of(p);
    let b = base32_encoding_of(encrypt_body_of(hk, base, p));
    let bc = qr_char_of(base);
    b.insert(embed_pos(ksr, bc, b), bc)
}

/// When a URL-safe text is accepted: it is non-empty, the character at
/// the recovered position is a base-64 digit below 32, and the rest
/// decodes as URL-safe base-64.
pub open spec fn url_text_ok(ksr: u64, t: Seq<u8>) -> bool {
    &&& t.len() > 0
    &&& url_val_of(t[extract_pos(ksr, t)]) <= 31
    &&& base64_url_decoding_of(t.remove(extract_pos(ksr, t))) is Some
}

/// The plaintext a URL-safe text decrypts to, where it is accepted.
pub open spec fn url_plain_of(hk: Seq<u8>, ksr: u64, t: Seq<u8>) -> Seq<u8> {
    let pos = extract_pos(ksr, t);
    decrypt_of(hk, url_val_of(t[pos]), base64_url_decoding_of(t.remove(pos))->0)
}

/// When a QR-alphanumeric text is accepted.
pub open spec fn qr_text_ok(ksr: u64, t: Seq<u8>) -> bool {
    &&& t.len() > 0
    &&& qr_val_of(t[extract_pos(ksr, t)]) <= 31
    &&& base32_decoding_of(t.remove(extract_pos(ksr, t))) is Some
}

/// The plaintext a QR-alphanumeric text decrypts to, where it is accepted.
pub open spec fn qr_plain_of(hk: Seq<u8>, ksr: u64, t: Seq<u8>) -> Seq<u8> {
    let pos = extract_pos(ksr, t);
    decrypt_of(hk, qr_val_of(t[pos]), base32_decoding_of(t.remove(pos))->0)
}

/// The extraction position of the built text is the embedding position:
/// inserting the base character adds exactly its byte value to the sum.
pub proof fn lemma_embed_extract(ksr: u64, bc: u8, b: Seq<u8>)
    ensures
        ({
            let pos = embed_pos(ksr, bc, b);
            let t = b.insert(pos, bc);
            &&& 0 <= pos <= b.len()
            &&& t.len() == b.len() + 1
            &&& extract_pos(ksr, t) == pos
            &&& t[pos] == bc
            &&& t.remove(pos) == b
        }),
{
    let pos = embed_pos(ksr, bc, b);
    let x = (ksr ^ wrap_u64(bc + byte_sum(b))) as int;
    vstd::arithmetic::div_mod::lemma_mod_division_less_than_divisor(x, b.len() as int + 1);
    let t = b.insert(pos, bc);
    lemma_remove_insert(b, pos, bc);
    lemma_byte_sum_insert(b, pos, bc);
    assert(byte_sum(t) == bc + byte_sum(b));
}

impl ShortCrypt {
    /// Sum the bytes of `v`, wrapping, on top of `init`.
    #[verifier::loop_isolation(false)]
    fn wrap_sum_on(init: u8, v: &[u8]) -> (sum: u64)
        ensures
            sum == wrap_u64(init + byte_sum(v@)),
    {
        let mut sum: u64 = init as u64;
        proof {
            vstd::arithmetic::div_mod::lemma_small_mod(init as nat, u64_modulus() as nat);
        }
        let len = v.len();
        let mut i: usize = 0;
        while i < len
            invariant
                i <= len,
                sum == wrap_u64(init + byte_sum(v@.subrange(0, i as int))),
            decreases len - i,
        {
            let b = v[i];
            proof {
                let prefix = v@.subrange(0, i as int);
                assert(v@.subrange(0, i + 1 as int) =~= prefix.push(b));
                lemma_byte_sum_push(prefix, b);
                lemma_byte_sum_nonneg(prefix);
                lemma_wrap_u64_add(init + byte_sum(prefix), b as u64);
            }
            sum = sum.wrapping_add(b as u64);
            i += 1;
        }
        proof {
            assert(v@.subrange(0, len as int) =~= v@);
        }
        sum
    }

    /// Insert the base digit `bc` into the encoded body `b` at the
    /// position the key dictates, and return the text as a `String`.
    #[verifier::loop_isolation(false)]
    fn embed_base(&self, bc: u8, b: Vec<u8>) -> (r: String)
        requires
            bc < 128,
            forall|i: int| 0 <= i < b@.len() ==> b@[i] < 128,
            b@.len() + 1 <= usize::MAX,
        ensures
            r@ == ascii_chars_of(b@.insert(embed_pos(self@.key_sum_rev, bc, b@), bc)),
            encode_utf8(r@) == b@.insert(embed_pos(self@.key_sum_rev, bc, b@), bc),
            is_ascii_chars(r@),
            r@.len() == b@.len() + 1,
    {
        let ghost bs = b@;
        let sum = Self::wrap_sum_on(bc, b.as_slice());
        let len = b.len();
        let pos64 = (self.key_sum_rev ^ sum) % ((len + 1) as u64);
        proof {
            lemma_embed_extract(self@.key_sum_rev, bc, bs);
        }
        let pos = pos64 as usize;
        let mut t = b;
        t.insert(pos, bc);
        proof {
            bs.insert_ensures(pos as int, bc);
            assert forall|i: int| 0 <= i < t@.len() implies t@[i] < 128 by {
                if i == pos {
                    assert(t@[i] == bc);
                } else if i > pos {
                    assert(t@[i] == bs[i - 1]);
                }
            }
        }
        ascii_string(t)
    }

    /// Encrypt a plaintext and encode it as one URL-safe text: the body
    /// in URL-safe base-64, the base as one more character of the same
    /// alphabet, inserted where the key dictates.
    pub fn encrypt_to_url_component(&self, data: &[u8]) -> (r: String)
        requires
            4 * data@.len() + 3 <= usize::MAX,
        ensures
            r@ == ascii_chars_of(url_transport_of(self@.hashed_key, self@.key_sum_rev, data@)),
            encode_utf8(r@) == url_transport_of(self@.hashed_key, self@.key_sum_rev, data@),
            is_ascii_chars(r@),
            r@.len() == (4 * data@.len() + 2) / 3 + 1,
    {
        let (base, encrypted) = self.encrypt(data);
        let bc = url_char(base);
        proof {
            lemma_digits_are_ascii(base);
        }
        let b = base64_url_encode(encrypted.as_slice());
        self.embed_base(bc, b)
    }

    /// Encrypt a plaintext and append its URL-safe text to `output`: the
    /// result is `output` followed by exactly `encrypt_to_url_component`
    /// of the plaintext.
    pub fn encrypt_to_url_component_and_push_to_string(&self, data: &[u8], output: String) -> (r:
        String)
        requires
            4 * data@.len() + 3 <= usize::MAX,
        ensures
            r@ == output@ + ascii_chars_of(
                url_transport_of(self@.hashed_key, self@.key_sum_rev, data@),
            ),
            r@.len() == output@.len() + (4 * data@.len() + 2) / 3 + 1,
    {
        let tail = self.encrypt_to_url_component(data);
        let mut out = output;
        out.append(tail.as_str());
        out
    }

    /// Encrypt a plaintext and encode it as one QR-code alphanumeric
    /// text: the body in unpadded RFC 4648 base-32, the base as one more
    /// character of the same alphabet, inserted where the key dictates.
    pub fn encrypt_to_qr_code_alphanumeric(&self, data: &[u8]) -> (r: String)
        requires
            8 * data@.len() + 5 <= usize::MAX,
        ensures
            r@ == ascii_chars_of(qr_transport_of(self@.hashed_key, self@.key_sum_rev, data@)),
            encode_utf8(r@) == qr_transport_of(self@.hashed_key, self@.key_sum_rev, data@),
            is_ascii_chars(r@),
            r@.len() == (8 * data@.len() + 4) / 5 + 1,
    {
        let (base, encrypted) = self.encrypt(data);
        let bc = qr_char(base);
        proof {
            lemma_digits_are_ascii(base);
        }
        let b = base32_encode(encrypted.as_slice());
        self.embed_base(bc, b)
    }

    /// Encrypt a plaintext and append its QR-code alphanumeric text to
    /// `output`: the result is `output` followed by exactly
    /// `encrypt_to_qr_code_alphanumeric` of the plaintext.
    pub fn encrypt_to_qr_code_alphanumeric_and_push_to_string(
        &self,
        data: &[u8],
        output: String,
    ) -> (r: String)
        requires
            8 * data@.len() + 5 <= usize::MAX,
        ensures
            r@ == output@ + ascii_chars_of(
                qr_transport_of(self@.hashed_key, self@.key_sum_rev, data@),
            ),
            r@.len() == output@.len() + (8 * data@.len() + 4) / 5 + 1,
    {
        let tail = self.encrypt_to_qr_code_alphanumeric(data);
        let mut out = output;
        out.append(tail.as_str());
        out
    }

    /// Find the embedded base digit of a transport text and split the
    /// text into that digit and the remaining body encoding.
    #[verifier::loop_isolation(false)]
    fn extract_base(&self, bytes: &Vec<u8>) -> (r: (u8, Vec<u8>))
        requires
            bytes@.len() > 0,
        ensures
            r.0 == bytes@[extract_pos(self@.key_sum_rev, bytes@)],
            r.1@ == bytes@.remove(extract_pos(self@.key_sum_rev, bytes@)),
    {
        let ghost t = bytes@;
        let len = bytes.len();
        let sum = Self::wrap_sum_on(0, bytes.as_slice());
        let pos64 = (self.key_sum_rev ^ sum) % (len as u64);
        proof {
            vstd::arithmetic::div_mod::lemma_mod_division_less_than_divisor(
                (self@.key_sum_rev ^ wrap_u64(byte_sum(t))) as int,
                len as int,
            );
        }
        let pos = pos64 as usize;
        let bc = bytes[pos];
        let mut rest: Vec<u8> = Vec::with_capacity(len - 1);
        let mut i: usize = 0;
        while i < pos
            invariant
                i <= pos < len,
                rest@ == t.subrange(0, i as int),
            decreases pos - i,
        {
            proof {
                assert(t.subrange(0, i + 1 as int) =~= t.subrange(0, i as int).push(t[i as int]));
            }
            rest.push(bytes[i]);
            i += 1;
        }
        let mut i: usize = pos + 1;
        while i < len
            invariant
                pos < i <= len,
                rest@ == t.subrange(0, pos as int) + t.subrange(pos + 1, i as int),
            decreases len - i,
        {
            proof {
                assert(t.subrange(pos + 1, i + 1 as int) =~= t.subrange(pos + 1, i as int).push(
                    t[i as int],
                ));
            }
            rest.push(bytes[i]);
            i += 1;
        }
        proof {
            assert(rest@ =~= t.remove(pos as int));
        }
        (bc, rest)
    }

    /// Decrypt a URL-safe transport text. Accepts exactly the non-empty
    /// texts whose recovered base digit is below 32 and whose remainder
    /// is URL-safe base-64; in particular it accepts everything that
    /// `encrypt_to_url_component` produced and gives back its plaintext.
    pub fn decrypt_url_component(&self, url_component: &str) -> (r: Result<Vec<u8>, &'static str>)
        ensures
            r is Ok <==> url_text_ok(self@.key_sum_rev, url_component.spec_bytes()),
            r matches Ok(v) ==> v@ == url_plain_of(
                self@.hashed_key,
                self@.key_sum_rev,
                url_component.spec_bytes(),
            ),
            r matches Err(e) ==> e@ == "The URL component is incorrect."@,
            forall|p: Seq<u8>|
                url_component.spec_bytes() == #[trigger] url_transport_of(
                    self@.hashed_key,
                    self@.key_sum_rev,
                    p,
                ) ==> (r matches Ok(v) && v@ == p),
    {
        let ghost hk = self@.hashed_key;
        let ghost ksr = self@.key_sum_rev;
        let bytes: Vec<u8> = url_component.as_bytes_vec();
        let ghost t = bytes@;
        proof {
            assert forall|p: Seq<u8>| t == #[trigger] url_transport_of(hk, ksr, p) implies {
                let pos = extract_pos(ksr, t);
                &&& t.len() > 0
                &&& t[pos] == url_char_of(encrypt_base_of(p))
                &&& url_val_of(t[pos]) == encrypt_base_of(p)
                &&& t.remove(pos) == base64_url_encoding_of(
                    encrypt_body_of(hk, encrypt_base_of(p), p),
                )
            } by {
                let base = encrypt_base_of(p);
                let b = base64_url_encoding_of(encrypt_body_of(hk, base, p));
                lemma_embed_extract(ksr, url_char_of(base), b);
                lemma_url_digit_round_trip(base);
            }
        }
        if bytes.len() == 0 {
            return Err("The URL component is incorrect.");
        }
        let (bc, rest) = self.extract_base(&bytes);
        let base = url_val(bc);
        if base > 31 {
            return Err("The URL component is incorrect.");
        }
        match base64_url_decode(rest.as_slice()) {
            Some(body) => {
                let mut out: Vec<u8> = Vec::with_capacity(body.len());
                self.decrypt_inner(base, body.as_slice(), &mut out);
                proof {
                    assert forall|p: Seq<u8>|
                        t == #[trigger] url_transport_of(hk, ksr, p) implies out@ == p by {
                        lemma_decrypt_round_trip(hk, p);
                    }
                }
                Ok(out)
            },
            None => Err("The URL component is incorrect."),
        }
    }

    /// Decrypt a URL-safe transport text and append the plaintext to
    /// `output`: on success the result is `output` followed by exactly
    /// what `decrypt_url_component` returns.
    pub fn decrypt_url_component_and_push_to_vec(&self, url_component: &str, output: Vec<u8>) -> (r:
        Result<Vec<u8>, &'static str>)
        ensures
            r is Ok <==> url_text_ok(self@.key_sum_rev, url_component.spec_bytes()),
            r matches Ok(v) ==> v@ == output@ + url_plain_of(
                self@.hashed_key,
                self@.key_sum_rev,
                url_component.spec_bytes(),
            ),
            r matches Err(e) ==> e@ == "The URL component is incorrect."@,
            forall|p: Seq<u8>|
                url_component.spec_bytes() == #[trigger] url_transport_of(
                    self@.hashed_key,
                    self@.key_sum_rev,
                    p,
                ) ==> (r matches Ok(v) && v@ == output@ + p),
    {
        match self.decrypt_url_component(url_component) {
            Ok(mut plain) => {
                let mut out = output;
                out.append(&mut plain);
                Ok(out)
            },
            Err(e) => Err(e),
        }
    }

    /// Decrypt a QR-code alphanumeric transport text. Accepts exactly
    /// the non-empty texts whose recovered base digit reads back below 32
    /// and whose remainder is unpadded RFC 4648 base-32; in particular it
    /// accepts everything that `encrypt_to_qr_code_alphanumeric` produced
    /// and gives back its plaintext.
    pub fn decrypt_qr_code_alphanumeric(&self, qr_code_alphanumeric: &str) -> (r: Result<
        Vec<u8>,
        &'static str,
    >)
        ensures
            r is Ok <==> qr_text_ok(self@.key_sum_rev, qr_code_alphanumeric.spec_bytes()),
            r matches Ok(v) ==> v@ == qr_plain_of(
                self@.hashed_key,
                self@.key_sum_rev,
                qr_code_alphanumeric.spec_bytes(),
            ),
            r matches Err(e) ==> e@ == "The QR code alphanumeric text is incorrect."@,
            forall|p: Seq<u8>|
                qr_code_alphanumeric.spec_bytes() == #[trigger] qr_transport_of(
                    self@.hashed_key,
                    self@.key_sum_rev,
                    p,
                ) ==> (r matches Ok(v) && v@ == p),
    {
        let ghost hk = self@.hashed_key;
        let ghost ksr = self@.key_sum_rev;
        let bytes: Vec<u8> = qr_code_alphanumeric.as_bytes_vec();
        let ghost t = bytes@;
        proof {
            assert forall|p: Seq<u8>| t == #[trigger] qr_transport_of(hk, ksr, p) implies {
                let pos = extract_pos(ksr, t);
                &&& t.len() > 0
                &&& t[pos] == qr_char_of(encrypt_base_of(p))
                &&& qr_val_of(t[pos]) == encrypt_base_of(p)
                &&& t.remove(pos) == base32_encoding_of(encrypt_body_of(hk, encrypt_base_of(p), p))
            } by {
                let base = encrypt_base_of(p);
                let b = base32_encoding_of(encrypt_body_of(hk, base, p));
                lemma_embed_extract(ksr, qr_char_of(base), b);
                lemma_qr_digit_round_trip(base);
            }
        }
        if bytes.len() == 0 {
            return Err("The QR code alphanumeric text is incorrect.");
        }
        let (bc, rest) = self.extract_base(&bytes);
        let base = qr_val(bc);
        if base > 31 {
            return Err("The QR code alphanumeric text is incorrect.");
        }
        match base32_decode(rest.as_slice()) {
            Some(body) => {
                let mut out: Vec<u8> = Vec::with_capacity(body.len());
                self.decrypt_inner(base, body.as_slice(), &mut out);
                proof {
                    assert forall|p: Seq<u8>|
                        t == #[trigger] qr_transport_of(hk, ksr, p) implies out@ == p by {
                        lemma_decrypt_round_trip(hk, p);
                    }
                }
                Ok(out)
            },
            None => Err("The QR code alphanumeric text is incorrect."),
        }
    }

    /// Decrypt a QR-code alphanumeric transport text and append the
    /// plaintext to `output`: on success the result is `output` followed
    /// by exactly what `decrypt_qr_code_alphanumeric` returns.
    pub fn decrypt_qr_code_alphanumeric_and_push_to_vec(
        &self,
        qr_code_alphanumeric: &str,
        output: Vec<u8>,
    ) -> (r: Result<Vec<u8>, &'static str>)
        ensures
            r is Ok <==> qr_text_ok(self@.key_sum_rev, qr_code_alphanumeric.spec_bytes()),
            r matches Ok(v) ==> v@ == output@ + qr_plain_of(
                self@.hashed_key,
                self@.key_sum_rev,
                qr_code_alphanumeric.spec_bytes(),
            ),
            r matches Err(e) ==> e@ == "The QR code alphanumeric text is incorrect."@,
            forall|p: Seq<u8>|
                qr_code_alphanumeric.spec_bytes() == #[trigger] qr_transport_of(
                    self@.hashed_key,
                    self@.key_sum_rev,
                    p,
                ) ==> (r matches Ok(v) && v@ == output@ + p),
    {
        match self.decrypt_qr_code_alphanumeric(qr_code_alphanumeric) {
            Ok(mut plain) => {
                let mut out = output;
                out.append(&mut plain);
                Ok(out)
            },
            Err(e) => Err(e),
        }
    }
}

} // verus!
