//! The per-chunk arithmetic transform ("mode") and its dispatch rules.

use vstd::prelude::*;

verus! {

use crate::bin::Bin;

/// The arithmetic transform applied to raw values before bucketing.
///
/// A closed set: an unknown serialized tag is a compatibility error, never
/// silently mapped to `Classic`.
#[derive(Clone, Copy, Debug, PartialEq, Eq, Structural)]
pub enum Mode {
    /// No transform; one latent stream of plain values.
    Classic,
    /// Per-bin common-divisor factoring; one latent stream.
    Gcd,
    /// Values are approximately multiplier times a float base; two latent
    /// streams (multiplier and imprecision). The base float is carried and
    /// stored as its 64-bit pattern.
    FloatMult(u64),
}

/// The serialized tag of each mode: `Classic` 0, `Gcd` 1, `FloatMult` 2.
pub open spec fn spec_mode_tag(m: Mode) -> nat {
    match m {
        Mode::Classic => 0,
        Mode::Gcd => 1,
        Mode::FloatMult(_) => 2,
    }
}

/// How many latent streams each mode interleaves.
pub open spec fn spec_n_latents(m: Mode) -> nat {
    match m {
        Mode::Classic => 1,
        Mode::Gcd => 1,
        Mode::FloatMult(_) => 2,
    }
}

/// How many times delta encoding was applied to one latent: the primary
/// latent carries the chunk's full order, while `FloatMult`'s auxiliary
/// imprecision latent is never delta-encoded.
pub open spec fn spec_latent_delta_order(m: Mode, latent_idx: nat, delta_order: nat) -> nat {
    if m is FloatMult && latent_idx == 1 {
        0
    } else {
        delta_order
    }
}

/// GCD arithmetic pays off only when some bin actually has a divisor above 1
/// and a nonzero offset to divide; mere permission by the mode is not enough.
pub open spec fn spec_use_gcd_arithmetic(bins: Seq<Bin>) -> bool {
    exists|i: int| 0 <= i < bins.len() && bins[i].gcd > 1 && bins[i].offset_bits > 0
}

impl Mode {
    /// The number of latent streams this mode requires.
    pub fn n_latents(&self) -> (r: usize)
        ensures
            r == spec_n_latents(*self),
    {
        match self {
            Mode::Classic => 1,
            Mode::Gcd => 1,
            Mode::FloatMult(_) => 2,
        }
    }

    /// How many times delta encoding was applied to the latent at
    /// `latent_idx`, given the chunk-level order.
    pub fn latent_delta_order(&self, latent_idx: usize, delta_order: usize) -> (r: usize)
        ensures
            r == spec_latent_delta_order(*self, latent_idx as nat, delta_order as nat),
    {
        match (self, latent_idx) {
            (Mode::FloatMult(_), 1) => 0,
            _ => delta_order,
        }
    }
}

/// Reports whether decoding with these bins must divide offsets by a
/// per-bin GCD.
pub fn use_gcd_arithmetic(bins: &Vec<Bin>) -> (r: bool)
    ensures
        r == spec_use_gcd_arithmetic(bins@),
{
    let mut i: usize = 0;
    while i < bins.len()
        invariant
            i <= bins@.len(),
            forall|j: int| 0 <= j < i ==> !(bins@[j].gcd > 1 && bins@[j].offset_bits > 0),
        decreases bins@.len() - i,
    {
        if bins[i].gcd > 1 && bins[i].offset_bits > 0 {
            return true;
        }
        i = i + 1;
    }
    false
}

} // verus!
