//! CBC chaining mode over the Speck cipher, with a pluggable padding
//! policy for the byte-array entry points.
//!
//! Encryption chains each plaintext block with the previous ciphertext
//! block (the IV for the first); decryption inverts one block at a
//! time against the same chain.  The byte-array entry points pad with
//! the policy `PG`, convert between bytes and 64-bit words big-endian,
//! and collapse every padding failure into one opaque error so that a
//! caller cannot be used as a padding oracle.

use vstd::prelude::*;
use core::marker::PhantomData;
use crate::block128::{Block128, BYTES_IN_BLOCK};
use crate::padding::PaddingGenerator;
use crate::speck::{
    spec_key_schedule, spec_speck_encrypt, spec_speck_decrypt, lemma_speck_decrypt_encrypt,
};
use crate::speck_128_128::Speck_128_128;
use crate::util::{
    spec_bytes_to_words, spec_words_to_bytes, bytes_to_words, words_to_bytes,
    lemma_spec_words_to_bytes_len, lemma_words_bytes_words, lemma_bytes_words_bytes,
};

verus! {

pub const BYTES_IN_WORD: usize = 8;

pub const WORDS_IN_BLOCK: usize = 2;

#[derive(Clone, Copy, Debug, PartialEq, Eq, Structural)]
pub enum CipherErrors {
    WrongPadding,
    WrongInput,
}

/// The ciphertext words of CBC encryption: each plaintext block is
/// XORed with the previous ciphertext block (`prev` for the first)
/// and then encrypted.  Blocks are pairs of words, high word first.
pub open spec fn spec_cbc_encrypt(keys: Seq<u64>, prev: (u64, u64), plaintext: Seq<u64>) -> Seq<
    u64,
>
    decreases plaintext.len(),
{
    if plaintext.len() < 2 {
        Seq::empty()
    } else {
        let c = spec_speck_encrypt(keys, plaintext[0] ^ prev.0, plaintext[1] ^ prev.1);
        seq![c.0, c.1] + spec_cbc_encrypt(keys, c, plaintext.skip(2))
    }
}

/// The plaintext words of CBC decryption: each ciphertext block is
/// decrypted and then XORed with the previous ciphertext block
/// (`prev` for the first).
pub open spec fn spec_cbc_decrypt(keys: Seq<u64>, prev: (u64, u64), ciphertext: Seq<u64>) -> Seq<
    u64,
>
    decreases ciphertext.len(),
{
    if ciphertext.len() < 2 {
        Seq::empty()
    } else {
        let d = spec_speck_decrypt(keys, ciphertext[0], ciphertext[1]);
        seq![d.0 ^ prev.0, d.1 ^ prev.1] + spec_cbc_decrypt(
            keys,
            (ciphertext[0], ciphertext[1]),
            ciphertext.skip(2),
        )
    }
}

pub proof fn lemma_cbc_encrypt_len(keys: Seq<u64>, prev: (u64, u64), plaintext: Seq<u64>)
    requires
        plaintext.len() % 2 == 0,
    ensures
        spec_cbc_encrypt(keys, prev, plaintext).len() == plaintext.len(),
    decreases plaintext.len(),
{
    if plaintext.len() >= 2 {
        let c = spec_speck_encrypt(keys, plaintext[0] ^ prev.0, plaintext[1] ^ prev.1);
        lemma_cbc_encrypt_len(keys, c, plaintext.skip(2));
    }
}

pub proof fn lemma_cbc_decrypt_len(keys: Seq<u64>, prev: (u64, u64), ciphertext: Seq<u64>)
    requires
        ciphertext.len() % 2 == 0,
    ensures
        spec_cbc_decrypt(keys, prev, ciphertext).len() == ciphertext.len(),
    decreases ciphertext.len(),
{
    if ciphertext.len() >= 2 {
        lemma_cbc_decrypt_len(keys, (ciphertext[0], ciphertext[1]), ciphertext.skip(2));
    }
}

/// CBC decryption undoes CBC encryption, block for block, for any
/// round-key sequence and any starting chain value.
pub proof fn lemma_cbc_decrypt_encrypt(keys: Seq<u64>, prev: (u64, u64), plaintext: Seq<u64>)
    requires
        plaintext.len() % 2 == 0,
    ensures
        spec_cbc_decrypt(keys, prev, spec_cbc_encrypt(keys, prev, plaintext)) == plaintext,
    decreases plaintext.len(),
{
    let ct = spec_cbc_encrypt(keys, prev, plaintext);
    if plaintext.len() == 0 {
        assert(spec_cbc_decrypt(keys, prev, ct) =~= plaintext);
    } else {
        let p0 = plaintext[0];
        let p1 = plaintext[1];
        let c = spec_speck_encrypt(keys, p0 ^ prev.0, p1 ^ prev.1);
        let rest = spec_cbc_encrypt(keys, c, plaintext.skip(2));
        assert(ct[0] == c.0);
        assert(ct[1] == c.1);
        lemma_speck_decrypt_encrypt(keys, p0 ^ prev.0, p1 ^ prev.1);
        let m0 = prev.0;
        let m1 = prev.1;
        assert((p0 ^ m0) ^ m0 == p0) by (bit_vector);
        assert((p1 ^ m1) ^ m1 == p1) by (bit_vector);
        assert(ct.skip(2) =~= rest);
        lemma_cbc_decrypt_encrypt(keys, c, plaintext.skip(2));
        assert(spec_cbc_decrypt(keys, prev, ct) =~= plaintext);
    }
}

/// A length that is a positive multiple of 16 bytes splits into a
/// positive, even number of 64-bit words.
proof fn lemma_block_aligned(n: int)
    requires
        n % 16 == 0,
        n >= 0,
    ensures
        n % 8 == 0,
        (n / 8) % 2 == 0,
        n > 0 ==> n / 8 >= 2,
        8 * (n / 8) == n,
{
    vstd::arithmetic::div_mod::lemma_fundamental_div_mod(n, 16);
    let q = n / 16;
    assert(n == 16 * q);
    assert(n == (2 * q) * 8);
    vstd::arithmetic::div_mod::lemma_mod_multiples_basic(2 * q, 8);
    vstd::arithmetic::div_mod::lemma_div_multiples_vanish(2 * q, 8);
    assert(n / 8 == 2 * q);
    vstd::arithmetic::div_mod::lemma_mod_multiples_basic(q, 2);
    assert((q * 2) % 2 == 0);
}

/// The ciphertext bytes of the full byte-level pipeline: pad with the
/// policy `PG`, split into words, chain-encrypt, lay out big-endian.
pub open spec fn spec_cbc_encrypt_bytes<PG: PaddingGenerator>(
    keys: Seq<u64>,
    iv: Block128,
    plaintext: Seq<u8>,
) -> Seq<u8> {
    spec_words_to_bytes(
        spec_cbc_encrypt(
            keys,
            (iv.a, iv.b),
            spec_bytes_to_words(PG::spec_pad(plaintext, BYTES_IN_BLOCK as int)),
        ),
    )
}

/// The result of the byte-level decryption pipeline: an empty or
/// misaligned buffer is `WrongInput`; otherwise the words are
/// chain-decrypted and the padding removed, any padding failure
/// surfacing as the one opaque `WrongPadding` error.
pub open spec fn spec_cbc_decrypt_bytes<PG: PaddingGenerator>(
    keys: Seq<u64>,
    iv: Block128,
    ciphertext: Seq<u8>,
) -> Result<Seq<u8>, CipherErrors> {
    if ciphertext.len() == 0 || ciphertext.len() as int % (BYTES_IN_BLOCK as int) != 0 {
        Err(CipherErrors::WrongInput)
    } else {
        let decrypted = spec_words_to_bytes(
            spec_cbc_decrypt(keys, (iv.a, iv.b), spec_bytes_to_words(ciphertext)),
        );
        match PG::spec_unpad(decrypted, BYTES_IN_BLOCK as int) {
            Ok(n) => Ok(decrypted.take(n)),
            Err(_) => Err(CipherErrors::WrongPadding),
        }
    }
}

/// The ciphertext of the byte pipeline is 1 to 16 bytes longer than
/// the plaintext and 16-byte aligned: the smallest multiple of the
/// block size strictly above the plaintext length.
pub proof fn lemma_cbc_encrypt_bytes_len<PG: PaddingGenerator>(
    keys: Seq<u64>,
    iv: Block128,
    plaintext: Seq<u8>,
)
    ensures
        plaintext.len() < spec_cbc_encrypt_bytes::<PG>(keys, iv, plaintext).len() <= plaintext.len()
            + BYTES_IN_BLOCK,
        spec_cbc_encrypt_bytes::<PG>(keys, iv, plaintext).len() as int % (BYTES_IN_BLOCK as int)
            == 0,
{
    let padded = PG::spec_pad(plaintext, BYTES_IN_BLOCK as int);
    PG::lemma_pad_properties(plaintext, BYTES_IN_BLOCK as int);
    lemma_block_aligned(padded.len() as int);
    let w = spec_bytes_to_words(padded);
    lemma_cbc_encrypt_len(keys, (iv.a, iv.b), w);
    lemma_spec_words_to_bytes_len(spec_cbc_encrypt(keys, (iv.a, iv.b), w));
}

/// Decrypting the bytes that encryption produced gives the plaintext
/// back, for every key, IV and plaintext, the empty one included.
pub proof fn lemma_cbc_bytes_roundtrip<PG: PaddingGenerator>(
    keys: Seq<u64>,
    iv: Block128,
    plaintext: Seq<u8>,
)
    ensures
        spec_cbc_decrypt_bytes::<PG>(keys, iv, spec_cbc_encrypt_bytes::<PG>(keys, iv, plaintext))
            == Ok::<Seq<u8>, CipherErrors>(plaintext),
{
    let padded = PG::spec_pad(plaintext, 16);
    PG::lemma_pad_properties(plaintext, 16);
    PG::lemma_pad_unpad(plaintext, 16);
    lemma_block_aligned(padded.len() as int);
    let w = spec_bytes_to_words(padded);
    let c = spec_cbc_encrypt(keys, (iv.a, iv.b), w);
    lemma_cbc_encrypt_len(keys, (iv.a, iv.b), w);
    let ct = spec_words_to_bytes(c);
    lemma_spec_words_to_bytes_len(c);
    assert(ct.len() == padded.len());
    lemma_words_bytes_words(c);
    assert(spec_bytes_to_words(ct) == c);
    lemma_cbc_decrypt_encrypt(keys, (iv.a, iv.b), w);
    lemma_bytes_words_bytes(padded);
    assert(spec_words_to_bytes(spec_cbc_decrypt(keys, (iv.a, iv.b), spec_bytes_to_words(ct)))
        == padded);
    assert(padded.take(plaintext.len() as int) == plaintext);
}

/// CBC mode over one Speck cipher instance and one padding policy,
/// holding the IV and the derived key schedule for its lifetime.
pub struct CBC<PG> {
    iv: Block128,
    block_cipher: Speck_128_128,
    padd_generator: PhantomData<PG>,
}

impl<PG: PaddingGenerator> CBC<PG> {
    /// The initialization vector this instance chains from.
    pub closed spec fn spec_iv(&self) -> Block128 {
        self.iv
    }

    /// The round keys of the held cipher.
    pub closed spec fn spec_keys(&self) -> Seq<u64> {
        self.block_cipher.spec_keys()
    }

    pub fn new(iv: Block128, key: Block128) -> (c: CBC<PG>)
        ensures
            c.spec_iv() == iv,
            c.spec_keys() == spec_key_schedule(key.a, key.b),
    {
        CBC { iv, block_cipher: Speck_128_128::new(key), padd_generator: PhantomData }
    }

    /// Chain-encrypts an even, nonempty sequence of words; blocks are
    /// word pairs, high word first.
    pub fn cbc_encrypt_blocks(&self, plaintext: &[u64]) -> (r: Vec<u64>)
        requires
            plaintext@.len() > 0,
            plaintext@.len() % 2 == 0,
        ensures
            r@ == spec_cbc_encrypt(
                self.spec_keys(),
                (self.spec_iv().a, self.spec_iv().b),
                plaintext@,
            ),
    {
        let ghost keys = self.spec_keys();
        let mut ciphertext: Vec<u64> = Vec::new();
        let mut prev_a = self.iv.get_a();
        let mut prev_b = self.iv.get_b();
        let n = plaintext.len();
        let blocks = n / 2;
        proof {
            vstd::arithmetic::div_mod::lemma_fundamental_div_mod(n as int, 2);
            assert(plaintext@.skip(0) =~= plaintext@);
            assert(ciphertext@ + spec_cbc_encrypt(keys, (prev_a, prev_b), plaintext@)
                =~= spec_cbc_encrypt(keys, (prev_a, prev_b), plaintext@));
        }
        let mut bi: usize = 0;
        while bi < blocks
            invariant
                bi <= blocks,
                n == plaintext@.len(),
                2 * blocks == n,
                ciphertext@.len() == 2 * bi,
                spec_cbc_encrypt(keys, (self.spec_iv().a, self.spec_iv().b), plaintext@)
                    == ciphertext@ + spec_cbc_encrypt(
                    keys,
                    (prev_a, prev_b),
                    plaintext@.skip(2 * bi),
                ),
                keys == self.spec_keys(),
            decreases blocks - bi,
        {
            let i = 2 * bi;
            let ghost prev_ct = ciphertext@;
            let ghost tail = plaintext@.skip(2 * bi);
            let (c0, c1) = self.block_cipher.speck_encrypt(
                plaintext[i] ^ prev_a,
                plaintext[i + 1] ^ prev_b,
            );
            ciphertext.push(c0);
            ciphertext.push(c1);
            proof {
                assert(tail[0] == plaintext@[2 * bi]);
                assert(tail[1] == plaintext@[2 * bi + 1]);
                assert(tail.skip(2) =~= plaintext@.skip(2 * bi + 2));
                assert(ciphertext@ =~= prev_ct + seq![c0, c1]);
                assert(prev_ct + (seq![c0, c1] + spec_cbc_encrypt(
                    keys,
                    (c0, c1),
                    plaintext@.skip(2 * bi + 2),
                )) =~= (prev_ct + seq![c0, c1]) + spec_cbc_encrypt(
                    keys,
                    (c0, c1),
                    plaintext@.skip(2 * bi + 2),
                ));
            }
            prev_a = c0;
            prev_b = c1;
            bi = bi + 1;
        }
        proof {
            assert(plaintext@.skip(2 * blocks as int) =~= Seq::<u64>::empty());
            assert(ciphertext@ + Seq::<u64>::empty() =~= ciphertext@);
        }
        ciphertext
    }

    /// Chain-decrypts an even, nonempty sequence of words; the inverse
    /// of `cbc_encrypt_blocks` under the same IV and key.
    pub fn cbc_decrypt_blocks(&self, ciphertext: &[u64]) -> (r: Vec<u64>)
        requires
            ciphertext@.len() > 0,
            ciphertext@.len() % 2 == 0,
        ensures
            r@ == spec_cbc_decrypt(
                self.spec_keys(),
                (self.spec_iv().a, self.spec_iv().b),
                ciphertext@,
            ),
    {
        let ghost keys = self.spec_keys();
        let mut decryptedtext: Vec<u64> = Vec::new();
        let mut prev_a = self.iv.get_a();
        let mut prev_b = self.iv.get_b();
        let n = ciphertext.len();
        let blocks = n / 2;
        proof {
            vstd::arithmetic::div_mod::lemma_fundamental_div_mod(n as int, 2);
            assert(ciphertext@.skip(0) =~= ciphertext@);
            assert(decryptedtext@ + spec_cbc_decrypt(keys, (prev_a, prev_b), ciphertext@)
                =~= spec_cbc_decrypt(keys, (prev_a, prev_b), ciphertext@));
        }
        let mut bi: usize = 0;
        while bi < blocks
            invariant
                bi <= blocks,
                n == ciphertext@.len(),
                2 * blocks == n,
                decryptedtext@.len() == 2 * bi,
                spec_cbc_decrypt(keys, (self.spec_iv().a, self.spec_iv().b), ciphertext@)
                    == decryptedtext@ + spec_cbc_decrypt(
                    keys,
                    (prev_a, prev_b),
                    ciphertext@.skip(2 * bi),
                ),
                keys == self.spec_keys(),
            decreases blocks - bi,
        {
            let i = 2 * bi;
            let ghost prev_pt = decryptedtext@;
            let ghost tail = ciphertext@.skip(2 * bi);
            let (d0, d1) = self.block_cipher.speck_decrypt(ciphertext[i], ciphertext[i + 1]);
            decryptedtext.push(d0 ^ prev_a);
            decryptedtext.push(d1 ^ prev_b);
            proof {
                assert(tail[0] == ciphertext@[2 * bi]);
                assert(tail[1] == ciphertext@[2 * bi + 1]);
                assert(tail.skip(2) =~= ciphertext@.skip(2 * bi + 2));
                assert(decryptedtext@ =~= prev_pt + seq![d0 ^ prev_a, d1 ^ prev_b]);
                assert(prev_pt + (seq![d0 ^ prev_a, d1 ^ prev_b] + spec_cbc_decrypt(
                    keys,
                    (tail[0], tail[1]),
                    ciphertext@.skip(2 * bi + 2),
                )) =~= (prev_pt + seq![d0 ^ prev_a, d1 ^ prev_b]) + spec_cbc_decrypt(
                    keys,
                    (tail[0], tail[1]),
                    ciphertext@.skip(2 * bi + 2),
                ));
            }
            prev_a = ciphertext[i];
            prev_b = ciphertext[i + 1];
            bi = bi + 1;
        }
        proof {
            assert(ciphertext@.skip(2 * blocks as int) =~= Seq::<u64>::empty());
            assert(decryptedtext@ + Seq::<u64>::empty() =~= decryptedtext@);
        }
        decryptedtext
    }

    /// Pads the plaintext with the policy `PG`, splits it into blocks
    /// big-endian and chain-encrypts; the empty plaintext is valid and
    /// yields one full padding block.
    pub fn cbc_encrypt_byte_array(&self, plaintext: &[u8]) -> (r: Result<Vec<u8>, CipherErrors>)
        requires
            plaintext@.len() + BYTES_IN_BLOCK <= usize::MAX,
        ensures
            r is Ok,
            r matches Ok(c) ==> c@ == spec_cbc_encrypt_bytes::<PG>(
                self.spec_keys(),
                self.spec_iv(),
                plaintext@,
            ),
    {
        let padded = PG::add_padding(plaintext, BYTES_IN_BLOCK);
        proof {
            PG::lemma_pad_properties(plaintext@, BYTES_IN_BLOCK as int);
            lemma_block_aligned(padded@.len() as int);
        }
        let words = bytes_to_words(padded.as_slice());
        let cipher_words = self.cbc_encrypt_blocks(words.as_slice());
        let out = words_to_bytes(cipher_words.as_slice());
        Ok(out)
    }

    /// Rejects an empty or misaligned buffer as `WrongInput`, then
    /// chain-decrypts and removes the padding; every padding failure
    /// is collapsed into the opaque `WrongPadding` error, with no
    /// detail of the offending bytes.
    pub fn cbc_decrypt_byte_array(&self, ciphertext: &[u8]) -> (r: Result<Vec<u8>, CipherErrors>)
        ensures
            match r {
                Ok(p) => spec_cbc_decrypt_bytes::<PG>(self.spec_keys(), self.spec_iv(),
                ciphertext@) == Ok::<Seq<u8>, CipherErrors>(p@),
                Err(e) => spec_cbc_decrypt_bytes::<PG>(self.spec_keys(), self.spec_iv(),
                ciphertext@) == Err::<Seq<u8>, CipherErrors>(e),
            },
    {
        let len = ciphertext.len();
        if len == 0 || len % BYTES_IN_BLOCK != 0 {
            return Err(CipherErrors::WrongInput);
        }
        proof {
            lemma_block_aligned(len as int);
        }
        let words = bytes_to_words(ciphertext);
        let dec_words = self.cbc_decrypt_blocks(words.as_slice());
        let mut decrypted = words_to_bytes(dec_words.as_slice());
        match PG::remove_padding(decrypted.as_slice(), BYTES_IN_BLOCK) {
            Err(_) => Err(CipherErrors::WrongPadding),
            Ok(plaintext_len) => {
                proof {
                    PG::lemma_unpad_range(decrypted@, BYTES_IN_BLOCK as int);
                }
                decrypted.truncate(plaintext_len);
                proof {
                    assert(decrypted@ =~= spec_words_to_bytes(
                        spec_cbc_decrypt(
                            self.spec_keys(),
                            (self.spec_iv().a, self.spec_iv().b),
                            spec_bytes_to_words(ciphertext@),
                        ),
                    ).take(plaintext_len as int));
                }
                Ok(decrypted)
            },
        }
    }
}

} // verus!
