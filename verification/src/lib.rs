//! Speck 128/128 block cipher with CBC chaining and PKCS7 padding.
//!
//! The crate is organised leaf-first: `util` holds the big-endian
//! byte/word conversions, `block128` the 128-bit block value,
//! `speck` and `speck_128_128` the cipher, `padding` and `pkcs7`
//! the padding policy, and `cbc` the chaining mode that composes them.

pub mod util;
pub mod block128;
pub mod padding;
pub mod pkcs7;
pub mod speck;
pub mod speck_128_128;
pub mod cbc;
