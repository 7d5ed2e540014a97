//! The cipher's 128-bit unit of data, addressed as two 64-bit halves.
//!
//! Byte serialization is always big-endian, regardless of host byte
//! order; the halves themselves are the cipher's native integer view
//! and carry no byte order.

use vstd::prelude::*;
use crate::util::{
    spec_u64_from_be_bytes, spec_u64_to_be_bytes, lemma_u64_to_from_be_bytes,
    lemma_u64_from_to_be_bytes, read_u64_be, push_u64_be,
};

verus! {

pub const BYTES_IN_BLOCK: usize = 16;

/// A 128-bit block: `a` is the high (first-on-the-wire) half,
/// `b` the low half.
#[derive(Clone, Copy, Debug, PartialEq, Eq, Structural)]
pub struct Block128 {
    pub a: u64,
    pub b: u64,
}

/// The block whose big-endian bytes are `s` (high half first).
pub open spec fn spec_block_from_bytes(s: Seq<u8>) -> Block128
    recommends
        s.len() == 16,
{
    Block128 { a: spec_u64_from_be_bytes(s.subrange(0, 8)), b: spec_u64_from_be_bytes(s.subrange(8, 16)) }
}

impl Block128 {
    /// The big-endian byte serialization of this block.
    pub open spec fn spec_to_bytes(self) -> Seq<u8> {
        spec_u64_to_be_bytes(self.a) + spec_u64_to_be_bytes(self.b)
    }

    /// The high 64-bit half.
    pub fn get_a(&self) -> (r: u64)
        ensures
            r == self.a,
    {
        self.a
    }

    /// The low 64-bit half.
    pub fn get_b(&self) -> (r: u64)
        ensures
            r == self.b,
    {
        self.b
    }

    /// Builds a block directly from its two halves.
    pub fn from_halves(a: u64, b: u64) -> (r: Block128)
        ensures
            r == (Block128 { a, b }),
    {
        Block128 { a, b }
    }

    /// Builds a block from a 128-bit value; the high 64 bits become
    /// the `a` half.
    pub fn from_u128(value: u128) -> (r: Block128)
        ensures
            r.a == (value >> 64) as u64,
            r.b == value as u64,
    {
        Block128 { a: #[verifier::truncate] ((value >> 64) as u64), b: #[verifier::truncate] (value as u64) }
    }

    /// Reads a block from exactly 16 big-endian bytes.
    pub fn from_bytes(bytes: &[u8]) -> (r: Block128)
        requires
            bytes@.len() == 16,
        ensures
            r == spec_block_from_bytes(bytes@),
    {
        let a = read_u64_be(bytes, 0);
        let b = read_u64_be(bytes, 8);
        Block128 { a, b }
    }

    /// Reads a block from a byte slice, rejecting any length other
    /// than 16.
    pub fn try_from_bytes(bytes: &[u8]) -> (r: Option<Block128>)
        ensures
            match r {
                Some(block) => bytes@.len() == 16 && block == spec_block_from_bytes(bytes@),
                None => bytes@.len() != 16,
            },
    {
        if bytes.len() == 16 {
            Some(Block128::from_bytes(bytes))
        } else {
            None
        }
    }

    /// Serializes the block to its 16 big-endian bytes; the exact
    /// inverse of `from_bytes`.
    pub fn to_bytes(&self) -> (r: Vec<u8>)
        ensures
            r@ == self.spec_to_bytes(),
            r@.len() == 16,
    {
        let mut r: Vec<u8> = Vec::new();
        push_u64_be(&mut r, self.a);
        push_u64_be(&mut r, self.b);
        proof {
            assert(r@ =~= self.spec_to_bytes());
        }
        r
    }

    /// Halfwise XOR, used for CBC chaining.
    pub fn xor(self, rhs: Block128) -> (r: Block128)
        ensures
            r.a == self.a ^ rhs.a,
            r.b == self.b ^ rhs.b,
    {
        Block128 { a: self.a ^ rhs.a, b: self.b ^ rhs.b }
    }
}

/// Serializing a block and reading it back gives the block.
pub proof fn lemma_block_to_from_bytes(block: Block128)
    ensures
        spec_block_from_bytes(block.spec_to_bytes()) == block,
{
    let s = block.spec_to_bytes();
    assert(s.subrange(0, 8) =~= spec_u64_to_be_bytes(block.a));
    assert(s.subrange(8, 16) =~= spec_u64_to_be_bytes(block.b));
    lemma_u64_to_from_be_bytes(block.a);
    lemma_u64_to_from_be_bytes(block.b);
}

/// Reading 16 bytes and serializing them back gives the bytes.
pub proof fn lemma_block_from_to_bytes(s: Seq<u8>)
    requires
        s.len() == 16,
    ensures
        spec_block_from_bytes(s).spec_to_bytes() == s,
{
    lemma_u64_from_to_be_bytes(s.subrange(0, 8));
    lemma_u64_from_to_be_bytes(s.subrange(8, 16));
    assert(spec_block_from_bytes(s).spec_to_bytes() =~= s);
}

} // verus!
