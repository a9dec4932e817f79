//! The two digit alphabets of the transport layer.
//!
//! A cipher's base value is carried inside the encoded text as a single
//! character: a URL-safe base-64 digit on the URL path, a base-32 digit on
//! the QR path. These maps turn a value into its digit and a digit back
//! into its value.

use vstd::prelude::*;

verus! {

/// The URL-safe base-64 digit of a value below 64:
/// `0..=9` then `A..=Z` then `a..=z` then `-` and `_`.
pub open spec fn url_char_of(v: u8) -> u8 {
    if v < 10 {
        (v + 48) as u8
    } else if v < 36 {
        (v + 55) as u8
    } else if v < 62 {
        (v + 61) as u8
    } else if v == 62 {
        45u8
    } else {
        95u8
    }
}

/// The value of a URL-safe base-64 digit; any byte outside the alphabet
/// maps to 63, which no base below 32 uses.
pub open spec fn url_val_of(c: u8) -> u8 {
    if 48 <= c && c <= 57 {
        (c - 48) as u8
    } else if 65 <= c && c <= 90 {
        ((c - 65) + 10) as u8
    } else if 97 <= c && c <= 122 {
        ((c - 97) + 36) as u8
    } else if c == 45 {
        62u8
    } else {
        63u8
    }
}

/// The base-32 digit of a value below 32: `0..=9` then `A..=V`.
pub open spec fn qr_char_of(v: u8) -> u8 {
    if v < 10 {
        (v + 48) as u8
    } else {
        (v + 55) as u8
    }
}

/// The value read back from a base-32 digit byte. Bytes outside the
/// alphabet go through the same byte arithmetic as digits do, wrapping
/// modulo 256; whether the outcome is accepted is the caller's check.
pub open spec fn qr_val_of(c: u8) -> u8 {
    if 48 <= c && c <= 57 {
        (c - 48) as u8
    } else {
        (((c as int) + 201) % 256) as u8
    }
}

pub fn url_char(v: u8) -> (c: u8)
    requires
        v < 64,
    ensures
        c == url_char_of(v),
{
    if v < 10 {
        v + 48
    } else if v < 36 {
        v + 55
    } else if v < 62 {
        v + 61
    } else if v == 62 {
        45
    } else {
        95
    }
}

pub fn url_val(c: u8) -> (r: u8)
    ensures
        r == url_val_of(c),
{
    if 48 <= c && c <= 57 {
        c - 48
    } else if 65 <= c && c <= 90 {
        (c - 65) + 10
    } else if 97 <= c && c <= 122 {
        (c - 97) + 36
    } else if c == 45 {
        62
    } else {
        63
    }
}

pub fn qr_char(v: u8) -> (c: u8)
    requires
        v < 32,
    ensures
        c == qr_char_of(v),
{
    if v < 10 {
        v + 48
    } else {
        v + 55
    }
}

pub fn qr_val(c: u8) -> (r: u8)
    ensures
        r == qr_val_of(c),
{
    if 48 <= c && c <= 57 {
        c - 48
    } else if c >= 55 {
        c - 55
    } else {
        c + 201
    }
}

/// Reading a URL digit back yields the value it was written from.
pub proof fn lemma_url_digit_round_trip(v: u8)
    requires
        v < 64,
    ensures
        url_val_of(url_char_of(v)) == v,
{
}

/// Reading a base-32 digit back yields the value it was written from.
pub proof fn lemma_qr_digit_round_trip(v: u8)
    requires
        v < 32,
    ensures
        qr_val_of(qr_char_of(v)) == v,
{
}

/// Both digit alphabets are plain ASCII.
pub proof fn lemma_digits_are_ascii(v: u8)
    ensures
        v < 64 ==> url_char_of(v) < 128,
        v < 32 ==> qr_char_of(v) < 128,
{
}

} // verus!
