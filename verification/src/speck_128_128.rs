//! The Speck 128/128 cipher keyed from a `Block128`.
//!
//! Same permutation as `speck::Speck`; this variant takes its key as a
//! block value, which is how the CBC mode holds key material.

use vstd::prelude::*;
use crate::block128::Block128;
use crate::speck::{Speck, spec_key_schedule, spec_speck_encrypt, spec_speck_decrypt};

verus! {

/// A Speck 128/128 cipher instance keyed from a 128-bit block.
#[allow(non_camel_case_types)]
pub struct Speck_128_128 {
    cipher: Speck,
}

impl Speck_128_128 {
    /// The derived round keys.
    pub closed spec fn spec_keys(&self) -> Seq<u64> {
        self.cipher.spec_keys()
    }

    /// Builds a cipher from a 128-bit key block; the high half is the
    /// first key word.
    pub fn new(key: Block128) -> (s: Speck_128_128)
        ensures
            s.spec_keys() == spec_key_schedule(key.a, key.b),
    {
        Speck_128_128 { cipher: Speck::from_words(key.get_a(), key.get_b()) }
    }

    /// Encrypts one block given as its two halves, high half first.
    pub fn speck_encrypt(&self, plaintext1: u64, plaintext2: u64) -> (r: (u64, u64))
        ensures
            r == spec_speck_encrypt(self.spec_keys(), plaintext1, plaintext2),
    {
        self.cipher.speck_encrypt(plaintext1, plaintext2)
    }

    /// Decrypts one block given as its two halves, high half first.
    pub fn speck_decrypt(&self, ciphertext1: u64, ciphertext2: u64) -> (r: (u64, u64))
        ensures
            r == spec_speck_decrypt(self.spec_keys(), ciphertext1, ciphertext2),
    {
        self.cipher.speck_decrypt(ciphertext1, ciphertext2)
    }
}

} // verus!
