//! Big-endian conversions between byte buffers and 64-bit words.
//!
//! All 16-byte quantities of the cipher (keys, IVs, blocks) are laid out
//! big-endian on the wire; these functions state that intent explicitly
//! instead of reinterpreting memory.

use vstd::prelude::*;

verus! {

/// The eight big-endian bytes of a 64-bit word, most significant first.
pub open spec fn spec_u64_to_be_bytes(x: u64) -> Seq<u8> {
    seq![
        ((x >> 56) & 0xff) as u8,
        ((x >> 48) & 0xff) as u8,
        ((x >> 40) & 0xff) as u8,
        ((x >> 32) & 0xff) as u8,
        ((x >> 24) & 0xff) as u8,
        ((x >> 16) & 0xff) as u8,
        ((x >> 8) & 0xff) as u8,
        (x & 0xff) as u8,
    ]
}

/// The 64-bit word whose big-endian bytes are `s`.
pub open spec fn spec_u64_from_be_bytes(s: Seq<u8>) -> u64
    recommends
        s.len() == 8,
{
    ((s[0] as u64) << 56) | ((s[1] as u64) << 48) | ((s[2] as u64) << 40) | ((s[3] as u64) << 32)
        | ((s[4] as u64) << 24) | ((s[5] as u64) << 16) | ((s[6] as u64) << 8) | (s[7] as u64)
}

/// Decoding the big-endian bytes of a word gives the word back.
pub proof fn lemma_u64_to_from_be_bytes(x: u64)
    ensures
        spec_u64_from_be_bytes(spec_u64_to_be_bytes(x)) == x,
{
    assert(((((x >> 56) & 0xff) as u8) as u64) << 56
        | ((((x >> 48) & 0xff) as u8) as u64) << 48
        | ((((x >> 40) & 0xff) as u8) as u64) << 40
        | ((((x >> 32) & 0xff) as u8) as u64) << 32
        | ((((x >> 24) & 0xff) as u8) as u64) << 24
        | ((((x >> 16) & 0xff) as u8) as u64) << 16
        | ((((x >> 8) & 0xff) as u8) as u64) << 8
        | (((x & 0xff) as u8) as u64) == x) by (bit_vector);
}

/// Encoding the word read from eight bytes gives the bytes back.
pub proof fn lemma_u64_from_to_be_bytes(s: Seq<u8>)
    requires
        s.len() == 8,
    ensures
        spec_u64_to_be_bytes(spec_u64_from_be_bytes(s)) == s,
{
    let x = spec_u64_from_be_bytes(s);
    let s0 = s[0] as u64;
    let s1 = s[1] as u64;
    let s2 = s[2] as u64;
    let s3 = s[3] as u64;
    let s4 = s[4] as u64;
    let s5 = s[5] as u64;
    let s6 = s[6] as u64;
    let s7 = s[7] as u64;
    assert((x == (s0 << 56) | (s1 << 48) | (s2 << 40) | (s3 << 32) | (s4 << 24) | (s5 << 16) | (
    s6 << 8) | s7 && s0 < 256 && s1 < 256 && s2 < 256 && s3 < 256 && s4 < 256 && s5 < 256 && s6
        < 256 && s7 < 256) ==> ((x >> 56) & 0xff == s0 && (x >> 48) & 0xff == s1 && (x >> 40) & 0xff
        == s2 && (x >> 32) & 0xff == s3 && (x >> 24) & 0xff == s4 && (x >> 16) & 0xff == s5 && (x
        >> 8) & 0xff == s6 && x & 0xff == s7)) by (bit_vector);
    assert(spec_u64_to_be_bytes(x) =~= s);
}

/// Reads the big-endian word stored at `bytes[offset .. offset + 8]`.
pub fn read_u64_be(bytes: &[u8], offset: usize) -> (x: u64)
    requires
        offset + 8 <= bytes@.len(),
    ensures
        x == spec_u64_from_be_bytes(bytes@.subrange(offset as int, offset as int + 8)),
{
    let x = ((bytes[offset] as u64) << 56) | ((bytes[offset + 1] as u64) << 48) | ((bytes[offset
        + 2] as u64) << 40) | ((bytes[offset + 3] as u64) << 32) | ((bytes[offset + 4] as u64)
        << 24) | ((bytes[offset + 5] as u64) << 16) | ((bytes[offset + 6] as u64) << 8) | (
    bytes[offset + 7] as u64);
    proof {
        let s = bytes@.subrange(offset as int, offset as int + 8);
        assert(s[0] == bytes@[offset as int]);
        assert(s[7] == bytes@[offset as int + 7]);
    }
    x
}

/// Appends the eight big-endian bytes of `x` to `out`.
pub fn push_u64_be(out: &mut Vec<u8>, x: u64)
    ensures
        final(out)@ == old(out)@ + spec_u64_to_be_bytes(x),
{
    out.push(((x >> 56) & 0xff) as u8);
    out.push(((x >> 48) & 0xff) as u8);
    out.push(((x >> 40) & 0xff) as u8);
    out.push(((x >> 32) & 0xff) as u8);
    out.push(((x >> 24) & 0xff) as u8);
    out.push(((x >> 16) & 0xff) as u8);
    out.push(((x >> 8) & 0xff) as u8);
    out.push((x & 0xff) as u8);
    proof {
        assert(out@ =~= old(out)@ + spec_u64_to_be_bytes(x));
    }
}

/// The word sequence read big-endian from `s`, eight bytes per word.
/// Trailing bytes beyond the last full word are ignored.
pub open spec fn spec_bytes_to_words(s: Seq<u8>) -> Seq<u64> {
    Seq::new((s.len() / 8) as nat, |i: int| spec_u64_from_be_bytes(s.subrange(8 * i, 8 * i + 8)))
}

/// The byte sequence that lays the words out big-endian, in order.
pub open spec fn spec_words_to_bytes(w: Seq<u64>) -> Seq<u8>
    decreases w.len(),
{
    if w.len() == 0 {
        Seq::empty()
    } else {
        spec_u64_to_be_bytes(w[0]) + spec_words_to_bytes(w.skip(1))
    }
}

pub proof fn lemma_spec_words_to_bytes_len(w: Seq<u64>)
    ensures
        spec_words_to_bytes(w).len() == 8 * w.len(),
    decreases w.len(),
{
    if w.len() > 0 {
        lemma_spec_words_to_bytes_len(w.skip(1));
    }
}

/// Reading words back from a big-endian layout recovers the words.
pub proof fn lemma_words_bytes_words(w: Seq<u64>)
    ensures
        spec_bytes_to_words(spec_words_to_bytes(w)) == w,
    decreases w.len(),
{
    lemma_spec_words_to_bytes_len(w);
    let b = spec_words_to_bytes(w);
    vstd::arithmetic::div_mod::lemma_div_multiples_vanish(w.len() as int, 8);
    assert(b.len() / 8 == w.len());
    if w.len() == 0 {
        assert(spec_bytes_to_words(b) =~= w);
    } else {
        let tail = w.skip(1);
        let t = spec_words_to_bytes(tail);
        lemma_words_bytes_words(tail);
        lemma_spec_words_to_bytes_len(tail);
        vstd::arithmetic::div_mod::lemma_div_multiples_vanish(tail.len() as int, 8);
        assert forall|i: int| 0 <= i < w.len() implies spec_bytes_to_words(b)[i] == w[i] by {
            if i == 0 {
                assert(b.subrange(0, 8) =~= spec_u64_to_be_bytes(w[0]));
                lemma_u64_to_from_be_bytes(w[0]);
            } else {
                assert(b.subrange(8 * i, 8 * i + 8) =~= t.subrange(8 * (i - 1), 8 * (i - 1) + 8));
                assert(spec_bytes_to_words(t)[i - 1] == tail[i - 1]);
            }
        }
        assert(spec_bytes_to_words(b) =~= w);
    }
}

/// Laying out the words read from `s` recovers `s`, byte for byte.
pub proof fn lemma_bytes_words_bytes(s: Seq<u8>)
    requires
        s.len() % 8 == 0,
    ensures
        spec_words_to_bytes(spec_bytes_to_words(s)) == s,
    decreases s.len(),
{
    let w = spec_bytes_to_words(s);
    if s.len() == 0 {
        assert(spec_words_to_bytes(w) =~= s);
    } else {
        vstd::arithmetic::div_mod::lemma_fundamental_div_mod(s.len() as int, 8);
        assert(s.len() == 8 * (s.len() as int / 8));
        assert(s.len() >= 8);
        let rest = s.skip(8);
        assert(rest.len() % 8 == 0) by {
            vstd::arithmetic::div_mod::lemma_mod_sub_multiples_vanish(s.len() as int, 8);
        }
        lemma_bytes_words_bytes(rest);
        let wr = spec_bytes_to_words(rest);
        vstd::arithmetic::div_mod::lemma_div_multiples_vanish(s.len() as int / 8 - 1, 8);
        assert(rest.len() / 8 == s.len() / 8 - 1);
        assert(w.skip(1) =~= wr) by {
            assert forall|i: int| 0 <= i < wr.len() implies w.skip(1)[i] == wr[i] by {
                assert(rest.subrange(8 * i, 8 * i + 8) =~= s.subrange(8 * (i + 1), 8 * (i + 1)
                    + 8));
            }
        }
        assert(w[0] == spec_u64_from_be_bytes(s.subrange(0, 8)));
        lemma_u64_from_to_be_bytes(s.subrange(0, 8));
        assert(spec_words_to_bytes(w) == spec_u64_to_be_bytes(w[0]) + spec_words_to_bytes(
            w.skip(1)));
        assert(spec_words_to_bytes(w) =~= s);
    }
}

/// Splits a byte buffer whose length is a multiple of eight into
/// big-endian 64-bit words.
pub fn bytes_to_words(input: &[u8]) -> (r: Vec<u64>)
    requires
        input@.len() % 8 == 0,
    ensures
        r@ == spec_bytes_to_words(input@),
{
    let len = input.len();
    let n = len / 8;
    proof {
        vstd::arithmetic::div_mod::lemma_fundamental_div_mod(input@.len() as int, 8);
    }
    let mut r: Vec<u64> = Vec::new();
    let mut w: usize = 0;
    while w < n
        invariant
            w <= n,
            len == input@.len(),
            n == input@.len() / 8,
            8 * n == len,
            r@.len() == w,
            forall|j: int| 0 <= j < w ==> r@[j] == spec_bytes_to_words(input@)[j],
        decreases n - w,
    {
        proof {
            assert(8 * w + 8 <= len);
        }
        let x = read_u64_be(input, w * 8);
        r.push(x);
        w = w + 1;
    }
    proof {
        assert(r@ =~= spec_bytes_to_words(input@));
    }
    r
}

/// Lays 64-bit words out as big-endian bytes, in order.
pub fn words_to_bytes(input: &[u64]) -> (r: Vec<u8>)
    ensures
        r@ == spec_words_to_bytes(input@),
{
    let mut r: Vec<u8> = Vec::new();
    let n = input.len();
    let mut i: usize = 0;
    proof {
        assert(input@.skip(0) =~= input@);
        assert(r@ + spec_words_to_bytes(input@) =~= spec_words_to_bytes(input@));
    }
    while i < n
        invariant
            i <= n,
            n == input@.len(),
            spec_words_to_bytes(input@) == r@ + spec_words_to_bytes(input@.skip(i as int)),
        decreases n - i,
    {
        let ghost r_prev = r@;
        let ghost tail = input@.skip(i as int);
        proof {
            assert(tail[0] == input@[i as int]);
            assert(tail.skip(1) =~= input@.skip(i as int + 1));
        }
        push_u64_be(&mut r, input[i]);
        proof {
            assert(spec_words_to_bytes(tail) == spec_u64_to_be_bytes(tail[0])
                + spec_words_to_bytes(tail.skip(1)));
            assert(r@ + spec_words_to_bytes(input@.skip(i as int + 1)) =~= r_prev
                + spec_words_to_bytes(tail));
        }
        i = i + 1;
    }
    proof {
        assert(input@.skip(n as int) =~= Seq::<u64>::empty());
        assert(r@ =~= spec_words_to_bytes(input@));
    }
    r
}

/// Appends every byte of `elements` to `input`, in order.
pub fn my_extend_from_slice(input: &mut Vec<u8>, elements: &[u8])
    ensures
        final(input)@ == old(input)@ + elements@,
{
    let n = elements.len();
    let mut i: usize = 0;
    while i < n
        invariant
            i <= n,
            n == elements@.len(),
            input@ == old(input)@ + elements@.subrange(0, i as int),
        decreases n - i,
    {
        input.push(elements[i]);
        i = i + 1;
    }
    proof {
        assert(input@ =~= old(input)@ + elements@);
    }
}

} // verus!
