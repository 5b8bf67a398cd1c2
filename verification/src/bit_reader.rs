//! The bit-stream reader: sequential bit input with byte-alignment draining.

use vstd::prelude::*;

verus! {

use vstd::arithmetic::power2::pow2;
use vstd::arithmetic::power2::lemma_pow2_unfold;
use vstd::arithmetic::power2::lemma_pow2_strictly_increases;
use vstd::arithmetic::power2::lemma2_to64;
use crate::bits::u_val;
use crate::bits::lemma_u_val_snoc;
use crate::bits::lemma_u_val_bound;
use crate::constants::Bitlen;
use crate::errors::CorruptionKind;
use crate::errors::PcoError;
use crate::errors::PcoResult;

/// What reading `w` bits at `pos` yields: the value of those bits read
/// least-significant first and the position after them, or
/// `InsufficientData` when the stream is too short.
pub open spec fn sp_read(s: Seq<bool>, pos: int, w: nat) -> Result<(nat, int), PcoError> {
    if 0 <= pos && pos + w <= s.len() {
        Ok((u_val(s.subrange(pos, pos + w)), pos + w))
    } else {
        Err(PcoError::InsufficientData)
    }
}

/// What draining to the next byte boundary at `pos` yields: the boundary
/// position if every padding bit is zero, the given corruption error if one
/// is set, and `InsufficientData` if the stream ends before the boundary.
pub open spec fn sp_drain_byte(s: Seq<bool>, pos: int, kind: CorruptionKind) -> Result<
    int,
    PcoError,
> {
    let boundary = pos + ((8 - pos % 8) % 8);
    if !(0 <= pos && boundary <= s.len()) {
        Err(PcoError::InsufficientData)
    } else if u_val(s.subrange(pos, boundary)) != 0 {
        Err(PcoError::Corruption(kind))
    } else {
        Ok(boundary)
    }
}

/// Reads a fixed sequence of bits from a remembered position onward.
pub struct BitReader {
    /// The whole stream being decoded.
    pub bits: Vec<bool>,
    /// How many bits have been consumed so far.
    pub pos: usize,
}

impl BitReader {
    /// The reader never outruns its stream.
    pub open spec fn wf(self) -> bool {
        self.pos <= self.bits@.len()
    }

    /// A reader at the start of `bits`.
    pub fn new(bits: Vec<bool>) -> (r: BitReader)
        ensures
            r.bits@ == bits@,
            r.pos == 0,
            r.wf(),
    {
        BitReader { bits, pos: 0 }
    }

    /// Reads the next `w` bits as an unsigned integer, least-significant
    /// bit first.
    pub fn read_uint(&mut self, w: Bitlen) -> (r: PcoResult<u64>)
        requires
            old(self).wf(),
            w <= 64,
        ensures
            final(self).wf(),
            final(self).bits@ == old(self).bits@,
            match sp_read(old(self).bits@, old(self).pos as int, w as nat) {
                Ok(v) => r == Ok::<u64, PcoError>(v.0 as u64) && final(self).pos == v.1 && v.0
                    < pow2(w as nat),
                Err(e) => r == Err::<u64, PcoError>(e) && final(self).pos == old(self).pos,
            },
    {
        let ghost s = self.bits@;
        let ghost pos0 = self.pos as int;
        let n: usize = self.bits.len();
        if n - self.pos < (w as usize) {
            return Err(PcoError::InsufficientData);
        }
        let mut acc: u64 = 0;
        let mut place: u64 = 1;
        let mut i: Bitlen = 0;
        proof {
            assert(pow2(0) == 1) by {
                lemma2_to64();
            }
            assert(s.subrange(pos0, pos0) =~= Seq::<bool>::empty());
        }
        while i < w
            invariant
                i <= w,
                w <= 64,
                s == self.bits@,
                s.len() == n,
                0 <= pos0,
                pos0 + w <= s.len(),
                self.pos == pos0 + i,
                acc as nat == u_val(s.subrange(pos0, pos0 + i)),
                (acc as nat) < pow2(i as nat),
                i < w ==> place as nat == pow2(i as nat),
            decreases w - i,
        {
            let bit: bool = self.bits[self.pos];
            proof {
                assert(s.subrange(pos0, pos0 + i + 1) =~= s.subrange(pos0, pos0 + i).push(
                    s[pos0 + i],
                ));
                lemma_u_val_snoc(s.subrange(pos0, pos0 + i), s[pos0 + i]);
                lemma_pow2_unfold((i + 1) as nat);
                if i + 1 < 64 {
                    lemma_pow2_strictly_increases((i + 1) as nat, 64);
                }
                assert(pow2(64) == 0x10000000000000000) by {
                    lemma2_to64();
                }
            }
            if bit {
                acc = acc + place;
            }
            self.pos = self.pos + 1;
            if i + 1 < w {
                proof {
                    lemma_pow2_strictly_increases((i + 1) as nat, 64);
                    assert(pow2(64) == 0x10000000000000000) by {
                        lemma2_to64();
                    }
                }
                place = place * 2;
            }
            i = i + 1;
        }
        Ok(acc)
    }

    /// Reads the next `w` bits as a `usize`; the format keeps every
    /// `usize`-valued field at 32 bits or fewer so the value fits on every
    /// machine this library supports.
    pub fn read_usize(&mut self, w: Bitlen) -> (r: PcoResult<usize>)
        requires
            old(self).wf(),
            w <= 32,
        ensures
            final(self).wf(),
            final(self).bits@ == old(self).bits@,
            match sp_read(old(self).bits@, old(self).pos as int, w as nat) {
                Ok(v) => r == Ok::<usize, PcoError>(v.0 as usize) && final(self).pos == v.1 && v.0
                    < pow2(w as nat),
                Err(e) => r == Err::<usize, PcoError>(e) && final(self).pos == old(self).pos,
            },
    {
        let ghost s = self.bits@;
        let ghost pos0 = self.pos as int;
        let x = self.read_uint(w)?;
        proof {
            lemma_u_val_bound(s.subrange(pos0, pos0 + w));
            if (w as nat) < 32 {
                lemma_pow2_strictly_increases(w as nat, 32);
            }
            assert(pow2(32) == 0x100000000) by {
                lemma2_to64();
            }
        }
        Ok(x as usize)
    }

    /// Reads the next `w` bits as a bit-length value.
    pub fn read_bitlen(&mut self, w: Bitlen) -> (r: PcoResult<Bitlen>)
        requires
            old(self).wf(),
            w <= 32,
        ensures
            final(self).wf(),
            final(self).bits@ == old(self).bits@,
            match sp_read(old(self).bits@, old(self).pos as int, w as nat) {
                Ok(v) => r == Ok::<Bitlen, PcoError>(v.0 as Bitlen) && final(self).pos == v.1
                    && v.0 < pow2(w as nat),
                Err(e) => r == Err::<Bitlen, PcoError>(e) && final(self).pos == old(self).pos,
            },
    {
        let ghost s = self.bits@;
        let ghost pos0 = self.pos as int;
        let x = self.read_uint(w)?;
        proof {
            lemma_u_val_bound(s.subrange(pos0, pos0 + w));
            if (w as nat) < 32 {
                lemma_pow2_strictly_increases(w as nat, 32);
            }
            assert(pow2(32) == 0x100000000) by {
                lemma2_to64();
            }
        }
        Ok(x as u32)
    }

    /// Consumes the zero padding up to the next byte boundary; a set bit in
    /// the padding is reported as the given corruption, a sign the stream
    /// is garbled or misaligned.
    pub fn drain_empty_byte(&mut self, kind: CorruptionKind) -> (r: PcoResult<()>)
        requires
            old(self).wf(),
        ensures
            final(self).wf(),
            final(self).bits@ == old(self).bits@,
            match sp_drain_byte(old(self).bits@, old(self).pos as int, kind) {
                Ok(end) => r == Ok::<(), PcoError>(()) && final(self).pos == end,
                Err(e) => r == Err::<(), PcoError>(e),
            },
    {
        let ghost s = self.bits@;
        let ghost pos0 = self.pos as int;
        let pad: usize = (8 - self.pos % 8) % 8;
        proof {
            lemma_u_val_bound(s.subrange(pos0, pos0 + pad));
            lemma_pow2_strictly_increases(pad as nat, 64);
            assert(pow2(64) == 0x10000000000000000) by {
                lemma2_to64();
            }
        }
        let x = self.read_uint(pad as Bitlen)?;
        if x != 0 {
            return Err(PcoError::Corruption(kind));
        }
        Ok(())
    }
}

} // verus!
