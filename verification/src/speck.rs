//! The Speck 128/128 block cipher: a keyed permutation over a pair of
//! 64-bit words, built from 32 add-rotate-xor rounds.
//!
//! The key schedule derives 32 round keys once per key; encryption
//! applies the forward round with keys in ascending order, decryption
//! the backward round with keys in descending order.

use vstd::prelude::*;
use vstd::wrapping::u64_specs;

verus! {

pub const WORDS_IN_KEY: usize = 2;

pub const BYTES_IN_KEY: usize = 16;

pub const ROUNDS: usize = 32;

pub open spec fn spec_rotr8(x: u64) -> u64 {
    (x >> 8) | (x << 56)
}

pub open spec fn spec_rotl8(x: u64) -> u64 {
    (x << 8) | (x >> 56)
}

pub open spec fn spec_rotr3(x: u64) -> u64 {
    (x >> 3) | (x << 61)
}

pub open spec fn spec_rotl3(x: u64) -> u64 {
    (x << 3) | (x >> 61)
}

/// One forward round:
/// `x1' = (rotr8(x1) + x2) ^ key` (wrapping add), `x2' = rotl3(x2) ^ x1'`.
pub open spec fn spec_round_forward(x1: u64, x2: u64, key: u64) -> (u64, u64) {
    let nx1 = u64_specs::wrapping_add(spec_rotr8(x1), x2) ^ key;
    let nx2 = spec_rotl3(x2) ^ nx1;
    (nx1, nx2)
}

/// One backward round, the exact inverse of the forward round:
/// `x2'' = rotr3(x2 ^ x1)`, `x1'' = rotl8((x1 ^ key) - x2'')` (wrapping sub).
pub open spec fn spec_round_backward(x1: u64, x2: u64, key: u64) -> (u64, u64) {
    let nx2 = spec_rotr3(x2 ^ x1);
    let nx1 = spec_rotl8(u64_specs::wrapping_sub(x1 ^ key, nx2));
    (nx1, nx2)
}

/// The backward round undoes the forward round.
pub proof fn lemma_round_inverse(x1: u64, x2: u64, key: u64)
    ensures
        spec_round_backward(
            spec_round_forward(x1, x2, key).0,
            spec_round_forward(x1, x2, key).1,
            key,
        ) == (x1, x2),
{
    let sum = u64_specs::wrapping_add(spec_rotr8(x1), x2);
    let f1 = sum ^ key;
    let f2 = spec_rotl3(x2) ^ f1;
    let rot = spec_rotl3(x2);
    assert((rot ^ f1) ^ f1 == rot) by (bit_vector);
    assert(spec_rotr3(spec_rotl3(x2)) == x2) by (bit_vector);
    assert((sum ^ key) ^ key == sum) by (bit_vector);
    assert(u64_specs::wrapping_sub(u64_specs::wrapping_add(spec_rotr8(x1), x2), x2)
        == spec_rotr8(x1));
    assert(spec_rotl8(spec_rotr8(x1)) == x1) by (bit_vector);
}

/// The `(x1, x2)` working pair after the first `n` forward rounds,
/// round `i` using `keys[i]`.
pub open spec fn spec_enc_rounds(keys: Seq<u64>, x1: u64, x2: u64, n: nat) -> (u64, u64)
    decreases n,
{
    if n == 0 {
        (x1, x2)
    } else {
        let prev = spec_enc_rounds(keys, x1, x2, (n - 1) as nat);
        spec_round_forward(prev.0, prev.1, keys[n as int - 1])
    }
}

/// The `(x1, x2)` working pair after undoing rounds `n - 1` down to `0`.
pub open spec fn spec_dec_rounds(keys: Seq<u64>, x1: u64, x2: u64, n: nat) -> (u64, u64)
    decreases n,
{
    if n == 0 {
        (x1, x2)
    } else {
        let step = spec_round_backward(x1, x2, keys[n as int - 1]);
        spec_dec_rounds(keys, step.0, step.1, (n - 1) as nat)
    }
}

pub proof fn lemma_rounds_inverse(keys: Seq<u64>, x1: u64, x2: u64, n: nat)
    ensures
        spec_dec_rounds(
            keys,
            spec_enc_rounds(keys, x1, x2, n).0,
            spec_enc_rounds(keys, x1, x2, n).1,
            n,
        ) == (x1, x2),
    decreases n,
{
    if n > 0 {
        let prev = spec_enc_rounds(keys, x1, x2, (n - 1) as nat);
        lemma_round_inverse(prev.0, prev.1, keys[n as int - 1]);
        lemma_rounds_inverse(keys, x1, x2, (n - 1) as nat);
    }
}

/// Encryption of the block `(a, b)`: the working pair is `(b, a)`
/// (the low half drives the round function), all rounds run forward,
/// and the final pair is relabeled back the same way.
pub open spec fn spec_speck_encrypt(keys: Seq<u64>, a: u64, b: u64) -> (u64, u64) {
    let r = spec_enc_rounds(keys, b, a, keys.len());
    (r.1, r.0)
}

/// Decryption of the block `(a, b)`, with the same half relabeling.
pub open spec fn spec_speck_decrypt(keys: Seq<u64>, a: u64, b: u64) -> (u64, u64) {
    let r = spec_dec_rounds(keys, b, a, keys.len());
    (r.1, r.0)
}

/// Decryption undoes encryption, for any round-key sequence.
pub proof fn lemma_speck_decrypt_encrypt(keys: Seq<u64>, a: u64, b: u64)
    ensures
        spec_speck_decrypt(
            keys,
            spec_speck_encrypt(keys, a, b).0,
            spec_speck_encrypt(keys, a, b).1,
        ) == (a, b),
{
    lemma_rounds_inverse(keys, b, a, keys.len());
}

/// The key-schedule working pair after `n` rounds, starting from
/// `(key_b, key_a)`, round `i` (1-based) using the constant `i - 1`.
pub open spec fn spec_ks_state(key_a: u64, key_b: u64, n: nat) -> (u64, u64)
    decreases n,
{
    if n == 0 {
        (key_b, key_a)
    } else {
        let prev = spec_ks_state(key_a, key_b, (n - 1) as nat);
        spec_round_forward(prev.0, prev.1, (n - 1) as u64)
    }
}

/// The 32 round keys derived from the key halves: round key 0 is the
/// high half, round key `i` is the second word of the schedule state
/// after `i` rounds.
pub open spec fn spec_key_schedule(key_a: u64, key_b: u64) -> Seq<u64> {
    Seq::new(
        32,
        |i: int|
            if i == 0 {
                key_a
            } else {
                spec_ks_state(key_a, key_b, i as nat).1
            },
    )
}

fn speck_round_forward(x1: &mut u64, x2: &mut u64, key: u64)
    ensures
        (*final(x1), *final(x2)) == spec_round_forward(*old(x1), *old(x2), key),
{
    *x1 = ((*x1 >> 8) | (*x1 << 56)).wrapping_add(*x2) ^ key;
    *x2 = ((*x2 << 3) | (*x2 >> 61)) ^ *x1;
}

fn speck_round_backward(x1: &mut u64, x2: &mut u64, key: u64)
    ensures
        (*final(x1), *final(x2)) == spec_round_backward(*old(x1), *old(x2), key),
{
    *x2 = ((*x2 ^ *x1) >> 3) | ((*x2 ^ *x1) << 61);
    *x1 = (*x1 ^ key).wrapping_sub(*x2);
    *x1 = (*x1 << 8) | (*x1 >> 56);
}

/// Derives the 32 round keys from the two key halves.
pub(crate) fn key_schedule(key_a: u64, key_b: u64) -> (keys: Vec<u64>)
    ensures
        keys@ == spec_key_schedule(key_a, key_b),
{
    let mut keys: Vec<u64> = Vec::new();
    keys.push(key_a);
    let mut y1: u64 = key_b;
    let mut y2: u64 = key_a;
    let mut i: usize = 1;
    while i < ROUNDS
        invariant
            1 <= i <= 32,
            keys@.len() == i,
            (y1, y2) == spec_ks_state(key_a, key_b, (i - 1) as nat),
            forall|j: int| 0 <= j < i ==> keys@[j] == spec_key_schedule(key_a, key_b)[j],
        decreases 32 - i,
    {
        speck_round_forward(&mut y1, &mut y2, (i - 1) as u64);
        keys.push(y2);
        i = i + 1;
    }
    proof {
        assert(keys@ =~= spec_key_schedule(key_a, key_b));
    }
    keys
}

/// A Speck 128/128 cipher instance: owns the round-key schedule
/// derived once from a 128-bit key, immutable afterwards.
pub struct Speck {
    keys_propagated: Vec<u64>,
}

impl Speck {
    /// The derived round keys.
    pub closed spec fn spec_keys(&self) -> Seq<u64> {
        self.keys_propagated@
    }

    /// Builds a cipher from the two 64-bit key words, high word first.
    pub(crate) fn from_words(key_a: u64, key_b: u64) -> (s: Speck)
        ensures
            s.spec_keys() == spec_key_schedule(key_a, key_b),
    {
        Speck { keys_propagated: key_schedule(key_a, key_b) }
    }

    /// Builds a cipher from a key of two 64-bit words, high word first.
    pub fn new(key: &[u64]) -> (s: Speck)
        requires
            key@.len() == 2,
        ensures
            s.spec_keys() == spec_key_schedule(key@[0], key@[1]),
    {
        Speck::from_words(key[0], key[1])
    }

    /// Encrypts one block given as its two halves, high half first.
    pub fn speck_encrypt(&self, plaintext1: u64, plaintext2: u64) -> (r: (u64, u64))
        ensures
            r == spec_speck_encrypt(self.spec_keys(), plaintext1, plaintext2),
    {
        let mut x1 = plaintext2;
        let mut x2 = plaintext1;
        let n = self.keys_propagated.len();
        let mut i: usize = 0;
        while i < n
            invariant
                i <= n,
                n == self.keys_propagated@.len(),
                (x1, x2) == spec_enc_rounds(self.spec_keys(), plaintext2, plaintext1, i as nat),
            decreases n - i,
        {
            let key = self.keys_propagated[i];
            speck_round_forward(&mut x1, &mut x2, key);
            i = i + 1;
        }
        (x2, x1)
    }

    /// Decrypts one block given as its two halves, high half first.
    pub fn speck_decrypt(&self, ciphertext1: u64, ciphertext2: u64) -> (r: (u64, u64))
        ensures
            r == spec_speck_decrypt(self.spec_keys(), ciphertext1, ciphertext2),
    {
        let mut x1 = ciphertext2;
        let mut x2 = ciphertext1;
        let n = self.keys_propagated.len();
        let mut i: usize = 0;
        while i < n
            invariant
                i <= n,
                n == self.keys_propagated@.len(),
                spec_dec_rounds(self.spec_keys(), ciphertext2, ciphertext1, n as nat)
                    == spec_dec_rounds(self.spec_keys(), x1, x2, (n - i) as nat),
            decreases n - i,
        {
            let key = self.keys_propagated[n - 1 - i];
            speck_round_backward(&mut x1, &mut x2, key);
            i = i + 1;
        }
        (x2, x1)
    }
}

} // verus!
