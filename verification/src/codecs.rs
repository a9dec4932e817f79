//! The boundary to the outside codecs.
//!
//! The checksums and the two transport encodings are computed by outside
//! crates. Each call is wrapped in one `external_body` function whose
//! contract states what the callee's source and documentation show; the
//! values that take pages to state exactly (a checksum, an encoding) are
//! given names by bodiless spec functions, and every contract of this
//! library speaks through those names.

use vstd::prelude::*;

verus! {

/// The CRC-8/CDMA2000 checksum of a byte string.
pub uninterp spec fn crc8_cdma2000_of(data: Seq<u8>) -> u8;

/// The CRC-64/WE checksum of a byte string.
pub uninterp spec fn crc64_we_of(data: Seq<u8>) -> u64;

/// The URL-safe base-64 encoding (no padding) of a byte string, as ASCII bytes.
pub uninterp spec fn base64_url_encoding_of(data: Seq<u8>) -> Seq<u8>;

/// The URL-safe base-64 decoding of ASCII bytes; `None` where the text is
/// not a valid encoding.
pub uninterp spec fn base64_url_decoding_of(text: Seq<u8>) -> Option<Seq<u8>>;

/// The RFC 4648 base-32 encoding (no padding) of a byte string, as ASCII bytes.
pub uninterp spec fn base32_encoding_of(data: Seq<u8>) -> Seq<u8>;

/// The RFC 4648 base-32 decoding of a byte string; `None` where the bytes are
/// not the valid unpadded encoding of anything.
pub uninterp spec fn base32_decoding_of(text: Seq<u8>) -> Option<Seq<u8>>;

/// The characters that a sequence of bytes below 128 spells.
pub open spec fn ascii_chars_of(bytes: Seq<u8>) -> Seq<char> {
    Seq::new(bytes.len(), |i: int| (bytes[i] as u32) as char)
}

/// Relies on crc_any's `CRCu8::crc8cdma2000`, `digest` and `get_crc`:
/// the CRC-8/CDMA2000 checksum is a function of the input bytes alone.
#[verifier::external_body]
pub(crate) fn crc8_cdma2000(data: &[u8]) -> (r: u8)
    ensures
        r == crc8_cdma2000_of(data@),
{
    let mut hasher = crc_any::CRCu8::crc8cdma2000();
    hasher.digest(data);
    hasher.get_crc()
}

/// Relies on crc_any's `CRCu64::crc64we`, `digest` and `get_crc`:
/// the CRC-64/WE checksum is a function of the input bytes alone.
#[verifier::external_body]
pub(crate) fn crc64_we(data: &[u8]) -> (r: u64)
    ensures
        r == crc64_we_of(data@),
{
    let mut hasher = crc_any::CRCu64::crc64we();
    hasher.digest(data);
    hasher.get_crc()
}

/// Relies on base64_url::encode: URL-safe base-64 without padding. The output
/// is ASCII text, four characters for every three input bytes (rounded up),
/// and base64_url::decode turns it back into the input.
#[verifier::external_body]
pub(crate) fn base64_url_encode(data: &[u8]) -> (r: Vec<u8>)
    ensures
        r@ == base64_url_encoding_of(data@),
        r@.len() == (4 * data@.len() + 2) / 3,
        forall|i: int| 0 <= i < r@.len() ==> r@[i] < 128,
        base64_url_decoding_of(r@) == Some(data@),
{
    base64_url::encode(data).into_bytes()
}

/// Relies on base64_url::decode: it rejects text that is not unpadded
/// URL-safe base-64, and on the encoding of any byte string it returns
/// exactly that byte string.
#[verifier::external_body]
pub(crate) fn base64_url_decode(text: &[u8]) -> (r: Option<Vec<u8>>)
    ensures
        r is Some <==> base64_url_decoding_of(text@) is Some,
        r is Some ==> r->0@ == base64_url_decoding_of(text@)->0,
        forall|x: Seq<u8>| text@ == base64_url_encoding_of(x) ==> r is Some && r->0@ == x,
{
    base64_url::decode(text).ok()
}

/// Relies on base32::encode with the unpadded RFC 4648 alphabet. The output
/// is ASCII text, eight characters for every five input bytes (rounded up),
/// and base32::decode turns it back into the input.
#[verifier::external_body]
pub(crate) fn base32_encode(data: &[u8]) -> (r: Vec<u8>)
    ensures
        r@ == base32_encoding_of(data@),
        r@.len() == (8 * data@.len() + 4) / 5,
        forall|i: int| 0 <= i < r@.len() ==> r@[i] < 128,
        base32_decoding_of(r@) == Some(data@),
{
    base32::encode(base32::Alphabet::Rfc4648 { padding: false }, data).into_bytes()
}

/// Relies on base32::decode with the unpadded RFC 4648 alphabet, and on
/// core::str::from_utf8 for the text argument it wants. base32::decode
/// itself returns `None` on any non-ASCII text, so bytes that are not valid
/// UTF-8 decode to `None` either way; on the encoding of any byte string it
/// returns exactly that byte string.
#[verifier::external_body]
pub(crate) fn base32_decode(text: &[u8]) -> (r: Option<Vec<u8>>)
    ensures
        r is Some <==> base32_decoding_of(text@) is Some,
        r is Some ==> r->0@ == base32_decoding_of(text@)->0,
        forall|x: Seq<u8>| text@ == base32_encoding_of(x) ==> r is Some && r->0@ == x,
{
    match core::str::from_utf8(text) {
        Ok(s) => base32::decode(base32::Alphabet::Rfc4648 { padding: false }, s),
        Err(_) => None,
    }
}

/// Relies on u64::reverse_bits: bit `i` of the result is bit `63 - i` of the
/// argument.
#[verifier::external_body]
pub(crate) fn reverse_bits_u64(x: u64) -> (r: u64)
    ensures
        forall|i: u64| i < 64 ==> #[trigger] ((r >> i) & 1) == (x >> ((63 - i) as u64)) & 1,
{
    x.reverse_bits()
}

/// Relies on String::from_utf8: bytes below 128 are valid UTF-8 and decode
/// to the characters with the same code points, one character per byte.
#[verifier::external_body]
pub(crate) fn ascii_string(bytes: Vec<u8>) -> (r: String)
    requires
        forall|i: int| 0 <= i < bytes@.len() ==> bytes@[i] < 128,
    ensures
        r@ == ascii_chars_of(bytes@),
        vstd::utf8::encode_utf8(r@) == bytes@,
        vstd::utf8::is_ascii_chars(r@),
{
    match String::from_utf8(bytes) {
        Ok(s) => s,
        Err(_) => String::new(),
    }
}

} // verus!
