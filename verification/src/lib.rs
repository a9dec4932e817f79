//! A short-length, length-preserving data obfuscator.
//!
//! Given a key and a plaintext of arbitrary length, it produces a cipher
//! whose body has exactly the plaintext's length plus a small "base" value
//! in `[0, 31]`, and two transport encodings of the pair: a URL-safe text
//! and a QR-code alphanumeric text. This is an obfuscator, not a secure
//! cipher: the same plaintext and key always yield the same ciphertext.

pub mod alphabet;
pub mod codecs;
pub mod folds;
pub mod shortcrypt;
pub mod transform;
pub mod transport;

pub use shortcrypt::{Cipher, KeyState, ShortCrypt};
