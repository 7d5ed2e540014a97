//! The padding capability: a stateless, reversible policy that pads a
//! byte sequence to a multiple of a block length of 1 to 255 bytes.
//!
//! The trait fixes the policy's meaning through two spec functions and
//! binds every implementation to the laws that the CBC mode relies on:
//! padding always grows the buffer, keeps the plaintext as a prefix,
//! reaches a multiple of the block length, and removal undoes it.

use vstd::prelude::*;

verus! {

#[derive(Clone, Copy, Debug, PartialEq, Eq, Structural)]
pub enum PaddingError {
    WrongPadding,
    WrongCiphertextLength,
    WrongBlockLength,
}

pub trait PaddingGenerator {
    /// The padded form of `plaintext` for block length `block_len`.
    spec fn spec_pad(plaintext: Seq<u8>, block_len: int) -> Seq<u8>;

    /// The result of padding removal: the plaintext length on success,
    /// or the padding error the input exhibits.
    spec fn spec_unpad(padded: Seq<u8>, block_len: int) -> Result<int, PaddingError>;

    /// Padding grows the buffer by 1 to `block_len` bytes, keeps the
    /// plaintext as a prefix, and reaches a multiple of `block_len`.
    proof fn lemma_pad_properties(plaintext: Seq<u8>, block_len: int)
        requires
            1 <= block_len <= 255,
        ensures
            plaintext.len() < Self::spec_pad(plaintext, block_len).len() <= plaintext.len()
                + block_len,
            Self::spec_pad(plaintext, block_len).len() as int % block_len == 0,
            Self::spec_pad(plaintext, block_len).take(plaintext.len() as int) == plaintext,
        ;

    /// A successful removal reports a length within the buffer.
    proof fn lemma_unpad_range(padded: Seq<u8>, block_len: int)
        requires
            1 <= block_len <= 255,
        ensures
            Self::spec_unpad(padded, block_len) matches Ok(n) ==> 0 <= n <= padded.len(),
        ;

    /// Removing the padding just added recovers the plaintext length.
    proof fn lemma_pad_unpad(plaintext: Seq<u8>, block_len: int)
        requires
            1 <= block_len <= 255,
        ensures
            Self::spec_unpad(Self::spec_pad(plaintext, block_len), block_len) == Ok::<
                int,
                PaddingError,
            >(plaintext.len() as int),
        ;

    /// Fills `padding` with the last block of the padded form of
    /// `plaintext`: the trailing partial plaintext block followed by
    /// the padding bytes.
    fn set_padding(plaintext: &[u8], padding: &mut Vec<u8>, block_len: usize)
        requires
            1 <= block_len <= 255,
        ensures
            ({
                let full = Self::spec_pad(plaintext@, block_len as int);
                final(padding)@ == full.subrange(full.len() - block_len, full.len() as int)
            }),
        ;

    /// Returns the padded form of `plaintext` in full.
    fn add_padding(plaintext: &[u8], block_len: usize) -> (r: Vec<u8>)
        requires
            1 <= block_len <= 255,
            plaintext@.len() + block_len <= usize::MAX,
        ensures
            r@ == Self::spec_pad(plaintext@, block_len as int),
        ;

    /// Validates and measures the padding of `ciphertext`, returning
    /// the unpadded length or the error the input exhibits.
    fn remove_padding(ciphertext: &[u8], block_len: usize) -> (r: Result<usize, PaddingError>)
        requires
            1 <= block_len <= 255,
        ensures
            ({
                let s = Self::spec_unpad(ciphertext@, block_len as int);
                match r {
                    Ok(n) => s == Ok::<int, PaddingError>(n as int),
                    Err(e) => s == Err::<int, PaddingError>(e),
                }
            }),
        ;
}

} // verus!
