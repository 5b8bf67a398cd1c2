//! Quantization buckets ("bins").

use vstd::prelude::*;

verus! {

use crate::constants::Bitlen;
use crate::constants::Weight;

/// One quantization bucket: a range of transformed values that share one
/// entropy-coder symbol, plus a literal residual locating the exact value.
#[derive(Clone, Copy, Debug, PartialEq, Eq, Structural)]
pub struct Bin {
    /// The bin's multiplicity in the ANS table; always at least 1.
    pub weight: Weight,
    /// The lowest value the bin covers.
    pub lower: u64,
    /// How many low bits of a value in the bin are stored as a literal
    /// offset; at most the width of the representation type.
    pub offset_bits: Bitlen,
    /// The common divisor factored out of offsets within the bin.
    /// Logically 1 unless GCD mode applies and `offset_bits > 0`.
    pub gcd: u64,
}

/// A bin list carries no information: it is empty, or a single bin with no
/// offset bits, so every value it could describe is the same.
pub open spec fn spec_bins_are_trivial(bins: Seq<Bin>) -> bool {
    bins.len() == 0 || (bins.len() == 1 && bins[0].offset_bits == 0)
}

/// Reports whether a bin list is degenerate and its latent carries no signal.
pub fn bins_are_trivial(bins: &Vec<Bin>) -> (r: bool)
    ensures
        r == spec_bins_are_trivial(bins@),
{
    bins.len() == 0 || (bins.len() == 1 && bins[0].offset_bits == 0)
}

} // verus!
