//! Delta-encoding seed values ("moments").

use vstd::prelude::*;

verus! {

use crate::bit_reader::BitReader;
use crate::bit_writer::BitWriter;
use crate::constants::U_BITS;
use crate::errors::PcoResult;
use crate::format::enc_delta_moments;
use crate::format::sp_parse_delta_moments;
use vstd::arithmetic::power2::pow2;
use vstd::arithmetic::power2::lemma2_to64;

broadcast use crate::bits::lemma_u_bits_len;

/// The seed values that invert delta encoding: one full-width value per
/// applied order of successive differencing.
#[derive(Clone, Debug, PartialEq)]
pub struct DeltaMoments {
    /// The seeds, outermost differencing order first.
    pub moments: Vec<u64>,
}

impl View for DeltaMoments {
    type V = Seq<u64>;

    open spec fn view(&self) -> Seq<u64> {
        self.moments@
    }
}

impl DeltaMoments {
    /// How many times delta encoding was applied.
    pub fn order(&self) -> (r: usize)
        ensures
            r == self@.len(),
    {
        self.moments.len()
    }

    /// Writes every moment at full representation width.
    pub fn write_to(&self, writer: &mut BitWriter)
        ensures
            final(writer)@ == old(writer)@ + enc_delta_moments(self@),
    {
        let ghost orig = writer@;
        let ghost ms = self@;
        let mut i: usize = 0;
        proof {
            assert(writer@ =~= orig + enc_delta_moments(ms.take(0)));
        }
        while i < self.moments.len()
            invariant
                i <= ms.len(),
                ms == self@,
                writer@ == orig + enc_delta_moments(ms.take(i as int)),
            decreases ms.len() - i,
        {
            proof {
                assert(pow2(64) == 0x10000000000000000) by {
                    lemma2_to64();
                }
            }
            writer.write_uint(self.moments[i], U_BITS);
            proof {
                lemma_enc_delta_moments_snoc(ms.take(i as int), ms[i as int]);
                assert(ms.take(i + 1) =~= ms.take(i as int).push(ms[i as int]));
            }
            i = i + 1;
        }
        proof {
            assert(ms.take(ms.len() as int) =~= ms);
        }
    }

    /// Reads `order` moments back; the order is supplied by the caller
    /// because it is not stored per page.
    pub fn parse_from(reader: &mut BitReader, order: usize) -> (r: PcoResult<Self>)
        requires
            old(reader).wf(),
        ensures
            final(reader).wf(),
            final(reader).bits@ == old(reader).bits@,
            match sp_parse_delta_moments(old(reader).bits@, old(reader).pos as int, order as nat) {
                Ok(v) => r matches Ok(m) && m@ == v.0 && final(reader).pos == v.1,
                Err(e) => r == Err::<Self, _>(e),
            },
        decreases order,
    {
        if order == 0 {
            let m = DeltaMoments { moments: Vec::new() };
            proof {
                assert(m@ =~= Seq::<u64>::empty());
            }
            Ok(m)
        } else {
            let first = reader.read_uint(U_BITS)?;
            let mut rest = Self::parse_from(reader, order - 1)?;
            let ghost prev = rest@;
            rest.moments.insert(0, first);
            proof {
                assert(rest@ =~= seq![first] + prev);
            }
            Ok(rest)
        }
    }
}

/// Appending a moment appends its encoding.
proof fn lemma_enc_delta_moments_snoc(ms: Seq<u64>, m: u64)
    ensures
        enc_delta_moments(ms.push(m)) == enc_delta_moments(ms) + crate::bits::u_bits(
            m as nat,
            U_BITS as nat,
        ),
    decreases ms.len(),
{
    let tail = crate::bits::u_bits(m as nat, U_BITS as nat);
    if ms.len() == 0 {
        assert(ms.push(m).drop_first() =~= Seq::<u64>::empty());
        assert(ms.push(m)[0] == m);
        assert(enc_delta_moments(Seq::<u64>::empty()) =~= Seq::<bool>::empty());
        assert(enc_delta_moments(ms.push(m)) == tail + enc_delta_moments(
            ms.push(m).drop_first(),
        ));
        assert(enc_delta_moments(ms.push(m)) =~= enc_delta_moments(ms) + tail);
    } else {
        assert(ms.push(m).drop_first() =~= ms.drop_first().push(m));
        assert(ms.push(m)[0] == ms[0]);
        lemma_enc_delta_moments_snoc(ms.drop_first(), m);
        assert(enc_delta_moments(ms.push(m)) == crate::bits::u_bits(ms[0] as nat, U_BITS as nat)
            + enc_delta_moments(ms.drop_first().push(m)));
        assert(enc_delta_moments(ms) == crate::bits::u_bits(ms[0] as nat, U_BITS as nat)
            + enc_delta_moments(ms.drop_first()));
        assert(enc_delta_moments(ms.push(m)) =~= enc_delta_moments(ms) + tail);
    }
}

} // verus!
