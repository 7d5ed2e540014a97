//! PKCS7 padding: the pad byte value equals the pad length, so removal
//! is unambiguous.  A full extra padding block is added when the
//! plaintext length is already a multiple of the block length — zero
//! added padding is disallowed by construction.

use vstd::prelude::*;
use crate::padding::{PaddingError, PaddingGenerator};

verus! {

/// The number of padding bytes PKCS7 appends: `block_len - len % block_len`,
/// which is `block_len` itself when `len` is already aligned.
pub open spec fn spec_pkcs7_pad_value(len: int, block_len: int) -> int {
    block_len - len % block_len
}

/// The PKCS7-padded form of `plaintext`: the plaintext followed by
/// `p` bytes of value `p`.
pub open spec fn spec_pkcs7_pad(plaintext: Seq<u8>, block_len: int) -> Seq<u8> {
    let p = spec_pkcs7_pad_value(plaintext.len() as int, block_len);
    plaintext + Seq::new(p as nat, |i: int| p as u8)
}

/// PKCS7 padding removal: rejects an empty or misaligned buffer as
/// `WrongCiphertextLength`; otherwise reads the last byte `p` and
/// rejects as `WrongPadding` unless `1 <= p <= block_len` and the last
/// `p` bytes all equal `p`; on success returns the unpadded length.
pub open spec fn spec_pkcs7_unpad(padded: Seq<u8>, block_len: int) -> Result<int, PaddingError> {
    if padded.len() == 0 || padded.len() as int % block_len != 0 {
        Err(PaddingError::WrongCiphertextLength)
    } else {
        let p = padded[padded.len() - 1] as int;
        if 1 <= p <= block_len && (forall|i: int|
            padded.len() - p <= i < padded.len() ==> padded[i] as int == p) {
            Ok(padded.len() - p)
        } else {
            Err(PaddingError::WrongPadding)
        }
    }
}

/// A final byte outside `1..=block_len` (for instance zero) makes
/// padding removal fail deterministically, never silently truncate.
pub proof fn lemma_unpad_rejects_bad_final_byte(padded: Seq<u8>, block_len: int)
    requires
        1 <= block_len <= 255,
        padded.len() > 0,
        padded.len() as int % block_len == 0,
        padded[padded.len() - 1] == 0 || padded[padded.len() - 1] > block_len,
    ensures
        spec_pkcs7_unpad(padded, block_len) == Err::<int, PaddingError>(PaddingError::WrongPadding),
{
}

pub struct PKCS7;

impl PaddingGenerator for PKCS7 {
    open spec fn spec_pad(plaintext: Seq<u8>, block_len: int) -> Seq<u8> {
        spec_pkcs7_pad(plaintext, block_len)
    }

    open spec fn spec_unpad(padded: Seq<u8>, block_len: int) -> Result<int, PaddingError> {
        spec_pkcs7_unpad(padded, block_len)
    }

    proof fn lemma_pad_properties(plaintext: Seq<u8>, block_len: int) {
        let len = plaintext.len() as int;
        let p = spec_pkcs7_pad_value(len, block_len);
        vstd::arithmetic::div_mod::lemma_mod_division_less_than_divisor(len, block_len);
        assert(1 <= p <= block_len);
        vstd::arithmetic::div_mod::lemma_fundamental_div_mod(len, block_len);
        assert(len + p == block_len * (len / block_len) + block_len);
        assert(len + p == block_len * (len / block_len + 1)) by (nonlinear_arith)
            requires
                len + p == block_len * (len / block_len) + block_len,
        ;
        vstd::arithmetic::div_mod::lemma_mod_multiples_basic(len / block_len + 1, block_len);
        assert(spec_pkcs7_pad(plaintext, block_len).take(len) =~= plaintext);
    }

    proof fn lemma_unpad_range(padded: Seq<u8>, block_len: int) {
        if padded.len() > 0 && padded.len() as int % block_len == 0 {
            vstd::arithmetic::div_mod::lemma_mod_is_zero(padded.len() as nat, block_len as nat);
        }
    }

    proof fn lemma_pad_unpad(plaintext: Seq<u8>, block_len: int) {
        let len = plaintext.len() as int;
        let p = spec_pkcs7_pad_value(len, block_len);
        let padded = spec_pkcs7_pad(plaintext, block_len);
        Self::lemma_pad_properties(plaintext, block_len);
        assert(padded[padded.len() - 1] as int == p);
        assert(forall|i: int| padded.len() - p <= i < padded.len() ==> padded[i] as int == p);
    }

    fn set_padding(plaintext: &[u8], padding: &mut Vec<u8>, block_len: usize) {
        let len = plaintext.len();
        let appendix = len % block_len;
        proof {
            vstd::arithmetic::div_mod::lemma_mod_decreases(len as nat, block_len as nat);
        }
        let pad = block_len - appendix;
        padding.clear();
        let start = len - appendix;
        proof {
            assert(padding@ =~= plaintext@.subrange(start as int, start as int));
        }
        let mut i = start;
        while i < len
            invariant
                start <= i <= len,
                len == plaintext@.len(),
                start == len - appendix,
                padding@ == plaintext@.subrange(start as int, i as int),
            decreases len - i,
        {
            padding.push(plaintext[i]);
            proof {
                assert(padding@ =~= plaintext@.subrange(start as int, i as int + 1));
            }
            i = i + 1;
        }
        proof {
            assert(padding@.subrange(0, appendix as int) =~= padding@);
        }
        let mut k: usize = 0;
        while k < pad
            invariant
                k <= pad,
                pad == block_len - appendix,
                appendix == plaintext@.len() as int % block_len as int,
                1 <= block_len <= 255,
                start == plaintext@.len() - appendix,
                padding@.len() == appendix + k,
                padding@.subrange(0, appendix as int) == plaintext@.subrange(
                    start as int,
                    plaintext@.len() as int,
                ),
                forall|j: int| appendix <= j < appendix + k ==> padding@[j] == pad as u8,
            decreases pad - k,
        {
            padding.push(pad as u8);
            proof {
                assert(padding@.subrange(0, appendix as int) =~= padding@.subrange(
                    0,
                    appendix as int,
                ));
            }
            k = k + 1;
        }
        proof {
            let full = spec_pkcs7_pad(plaintext@, block_len as int);
            assert(full.len() == plaintext@.len() + pad);
            assert forall|j: int| 0 <= j < block_len implies padding@[j] == full[full.len()
                - block_len + j] by {
                if j < appendix {
                    assert(padding@[j] == padding@.subrange(0, appendix as int)[j]);
                    assert(plaintext@.subrange(start as int, plaintext@.len() as int)[j]
                        == plaintext@[start + j]);
                }
            }
            assert(padding@ =~= full.subrange(full.len() - block_len as int, full.len() as int));
        }
    }

    fn add_padding(plaintext: &[u8], block_len: usize) -> (r: Vec<u8>) {
        let len = plaintext.len();
        let pad = block_len - len % block_len;
        let mut r: Vec<u8> = Vec::new();
        crate::util::my_extend_from_slice(&mut r, plaintext);
        let mut k: usize = 0;
        while k < pad
            invariant
                k <= pad,
                pad == block_len as int - plaintext@.len() as int % block_len as int,
                1 <= block_len <= 255,
                r@.len() == plaintext@.len() + k,
                r@.subrange(0, plaintext@.len() as int) == plaintext@,
                forall|j: int|
                    plaintext@.len() <= j < plaintext@.len() + k ==> r@[j] == pad as u8,
            decreases pad - k,
        {
            r.push(pad as u8);
            proof {
                assert(r@.subrange(0, plaintext@.len() as int) =~= plaintext@);
            }
            k = k + 1;
        }
        proof {
            assert(r@ =~= spec_pkcs7_pad(plaintext@, block_len as int));
        }
        r
    }

    fn remove_padding(ciphertext: &[u8], block_len: usize) -> (r: Result<usize, PaddingError>) {
        let len = ciphertext.len();
        if len == 0 || len % block_len != 0 {
            return Err(PaddingError::WrongCiphertextLength);
        }
        let p = ciphertext[len - 1] as usize;
        if p == 0 || p > block_len {
            return Err(PaddingError::WrongPadding);
        }
        proof {
            vstd::arithmetic::div_mod::lemma_mod_is_zero(len as nat, block_len as nat);
        }
        let mut i = len - p;
        while i < len
            invariant
                len - p <= i <= len,
                len == ciphertext@.len(),
                len > 0,
                1 <= block_len <= 255,
                len as int % block_len as int == 0,
                1 <= p <= block_len,
                p == ciphertext@[len - 1] as int,
                forall|j: int| len - p <= j < i ==> ciphertext@[j] as int == p,
            decreases len - i,
        {
            if ciphertext[i] as usize != p {
                proof {
                    assert(ciphertext@[i as int] as int != p);
                    assert(exists|j: int|
                        ciphertext@.len() - p <= j < ciphertext@.len() && ciphertext@[j] as int
                            != p);
                }
                return Err(PaddingError::WrongPadding);
            }
            i = i + 1;
        }
        Ok(len - p)
    }
}

} // verus!
