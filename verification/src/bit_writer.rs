//! The bit-stream writer: sequential bit output with byte alignment and
//! random-access overwrite for backpatching.

use vstd::prelude::*;

verus! {

use vstd::arithmetic::power2::pow2;
use vstd::arithmetic::power2::lemma_pow2_unfold;
use vstd::arithmetic::power2::lemma_pow2_pos;
use vstd::arithmetic::power2::lemma2_to64;
use vstd::arithmetic::div_mod::lemma_div_denominator;
use crate::bits::u_bits;
use crate::bits::lemma_u_bits_len;
use crate::bits::lemma_u_bits_index;
use crate::constants::Bitlen;

/// Writes a growing sequence of bits; each integer field goes out
/// least-significant bit first at a caller-chosen width.
///
/// The whole stream stays addressable, so an already-written field can be
/// overwritten in place at a remembered bit offset (the backpatch the chunk
/// writer needs for `compressed_body_size`).
pub struct BitWriter {
    /// Every bit written so far, in order.
    pub bits: Vec<bool>,
}

impl View for BitWriter {
    type V = Seq<bool>;

    open spec fn view(&self) -> Seq<bool> {
        self.bits@
    }
}

impl BitWriter {
    /// An empty stream.
    pub fn new() -> (w: BitWriter)
        ensures
            w@ == Seq::<bool>::empty(),
    {
        BitWriter { bits: Vec::new() }
    }

    /// The current write position: the number of bits written so far.
    pub fn bit_idx(&self) -> (r: usize)
        ensures
            r == self@.len(),
    {
        self.bits.len()
    }

    /// Appends the low `w` bits of `x`, least-significant first.
    pub fn write_uint(&mut self, x: u64, w: Bitlen)
        requires
            w <= 64,
            (x as nat) < pow2(w as nat),
        ensures
            final(self)@ == old(self)@ + u_bits(x as nat, w as nat),
    {
        let ghost orig = self.bits@;
        let ghost s = u_bits(x as nat, w as nat);
        let mut rem: u64 = x;
        let mut i: Bitlen = 0;
        proof {
            lemma_u_bits_len(x as nat, w as nat);
            assert(pow2(0) == 1) by {
                lemma2_to64();
            }
            assert(self.bits@ =~= orig + s.take(0));
        }
        while i < w
            invariant
                i <= w,
                w <= 64,
                (x as nat) < pow2(w as nat),
                s == u_bits(x as nat, w as nat),
                s.len() == w,
                rem as nat == (x as nat) / pow2(i as nat),
                self.bits@ == orig + s.take(i as int),
            decreases w - i,
        {
            proof {
                lemma_u_bits_index(x as nat, w as nat, i as nat);
            }
            self.bits.push(rem % 2 == 1);
            proof {
                assert(s.take(i + 1) =~= s.take(i as int).push(s[i as int]));
                assert(self.bits@ =~= orig + s.take(i + 1));
            }
            rem = rem / 2;
            proof {
                lemma_pow2_pos(i as nat);
                lemma_pow2_unfold((i + 1) as nat);
                lemma_div_denominator(x as int, pow2(i as nat) as int, 2);
            }
            i = i + 1;
        }
        proof {
            assert(s.take(w as int) =~= s);
        }
    }

    /// Appends the low `w` bits of a `usize` value.
    pub fn write_usize(&mut self, x: usize, w: Bitlen)
        requires
            w <= 64,
            (x as nat) < pow2(w as nat),
        ensures
            final(self)@ == old(self)@ + u_bits(x as nat, w as nat),
    {
        self.write_uint(x as u64, w);
    }

    /// Appends the low `w` bits of a bit-length value.
    pub fn write_bitlen(&mut self, x: Bitlen, w: Bitlen)
        requires
            w <= 64,
            (x as nat) < pow2(w as nat),
        ensures
            final(self)@ == old(self)@ + u_bits(x as nat, w as nat),
    {
        self.write_uint(x as u64, w);
    }

    /// Pads the stream with zero bits to the next byte boundary.
    pub fn finish_byte(&mut self)
        ensures
            final(self)@ == old(self)@ + u_bits(0, ((8 - old(self)@.len() % 8) % 8) as nat),
            final(self)@.len() % 8 == 0,
    {
        let pad: usize = (8 - self.bits.len() % 8) % 8;
        proof {
            lemma_pow2_pos(pad as nat);
        }
        self.write_uint(0, pad as Bitlen);
        proof {
            lemma_u_bits_len(0, pad as nat);
        }
    }

    /// Overwrites the `w` bits at absolute position `bit_idx` with the low
    /// `w` bits of `x`; everything else is untouched.
    pub fn overwrite_uint(&mut self, bit_idx: usize, x: u64, w: Bitlen)
        requires
            w <= 64,
            (x as nat) < pow2(w as nat),
            bit_idx + w <= old(self)@.len(),
        ensures
            final(self)@ == old(self)@.subrange(0, bit_idx as int) + u_bits(x as nat, w as nat)
                + old(self)@.subrange(bit_idx + w, old(self)@.len() as int),
    {
        let ghost orig = self.bits@;
        let ghost s = u_bits(x as nat, w as nat);
        let total_len: usize = self.bits.len();
        let mut rem: u64 = x;
        let mut i: Bitlen = 0;
        proof {
            lemma_u_bits_len(x as nat, w as nat);
            assert(pow2(0) == 1) by {
                lemma2_to64();
            }
        }
        while i < w
            invariant
                i <= w,
                w <= 64,
                (x as nat) < pow2(w as nat),
                s == u_bits(x as nat, w as nat),
                s.len() == w,
                orig.len() == total_len,
                bit_idx + w <= orig.len(),
                rem as nat == (x as nat) / pow2(i as nat),
                self.bits@.len() == orig.len(),
                forall|j: int|
                    0 <= j < orig.len() && !(bit_idx <= j < bit_idx + i) ==> self.bits@[j]
                        == orig[j],
                forall|j: int| 0 <= j < i ==> self.bits@[bit_idx + j] == s[j],
            decreases w - i,
        {
            proof {
                lemma_u_bits_index(x as nat, w as nat, i as nat);
            }
            let idx: usize = bit_idx + (i as usize);
            self.bits.set(idx, rem % 2 == 1);
            rem = rem / 2;
            proof {
                lemma_pow2_pos(i as nat);
                lemma_pow2_unfold((i + 1) as nat);
                lemma_div_denominator(x as int, pow2(i as nat) as int, 2);
            }
            i = i + 1;
        }
        proof {
            assert(self.bits@ =~= orig.subrange(0, bit_idx as int) + s + orig.subrange(
                bit_idx + w,
                orig.len() as int,
            ));
        }
    }

    /// Overwrites `w` bits at `bit_idx` with a `usize` value, for
    /// backpatching a size field once its value is known.
    pub fn overwrite_usize(&mut self, bit_idx: usize, x: usize, w: Bitlen)
        requires
            w <= 64,
            (x as nat) < pow2(w as nat),
            bit_idx + w <= old(self)@.len(),
        ensures
            final(self)@ == old(self)@.subrange(0, bit_idx as int) + u_bits(x as nat, w as nat)
                + old(self)@.subrange(bit_idx + w, old(self)@.len() as int),
    {
        self.overwrite_uint(bit_idx, x as u64, w);
    }

    /// Hands the finished stream over, ending this writer's ownership.
    pub fn into_bits(self) -> (r: Vec<bool>)
        ensures
            r@ == self@,
    {
        self.bits
    }
}

} // verus!
