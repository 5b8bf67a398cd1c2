//! Mathematical model of bit-level integer fields.
//!
//! Every integer field of the format occupies a fixed number of bits and is
//! laid out least-significant bit first. `u_bits` gives the bit sequence of a
//! value at a chosen width, and `u_val` reads a bit sequence back as a value;
//! the lemmas here relate the two and are the foundation of every round-trip
//! proof in the crate.

use vstd::prelude::*;

verus! {

use vstd::arithmetic::power2::pow2;
use vstd::arithmetic::power2::lemma_pow2_unfold;
use vstd::arithmetic::power2::lemma_pow2_pos;
use vstd::arithmetic::div_mod::lemma_div_denominator;
use vstd::arithmetic::div_mod::lemma_fundamental_div_mod;

/// The bits of `x` at width `w`, least-significant bit first.
/// Bits beyond the width are dropped, so the result encodes `x % pow2(w)`.
pub open spec fn u_bits(x: nat, w: nat) -> Seq<bool>
    decreases w,
{
    if w == 0 {
        Seq::empty()
    } else {
        seq![x % 2 == 1] + u_bits(x / 2, (w - 1) as nat)
    }
}

/// The value of a bit sequence, read least-significant bit first.
pub open spec fn u_val(s: Seq<bool>) -> nat
    decreases s.len(),
{
    if s.len() == 0 {
        0
    } else {
        (if s[0] { 1nat } else { 0nat }) + 2 * u_val(s.drop_first())
    }
}

pub broadcast proof fn lemma_u_bits_len(x: nat, w: nat)
    ensures
        #[trigger] u_bits(x, w).len() == w,
    decreases w,
{
    if w > 0 {
        lemma_u_bits_len(x / 2, (w - 1) as nat);
    }
}

/// A value below `pow2(w)` is recovered exactly from its `w`-bit encoding.
pub broadcast proof fn lemma_u_val_u_bits(x: nat, w: nat)
    requires
        x < pow2(w),
    ensures
        #[trigger] u_val(u_bits(x, w)) == x,
    decreases w,
{
    lemma_u_bits_len(x, w);
    if w == 0 {
        assert(pow2(0) == 1) by {
            vstd::arithmetic::power2::lemma2_to64();
        }
    } else {
        let s = u_bits(x, w);
        let t = u_bits(x / 2, (w - 1) as nat);
        lemma_u_bits_len(x / 2, (w - 1) as nat);
        assert(s.drop_first() =~= t);
        lemma_pow2_unfold(w);
        lemma_u_val_u_bits(x / 2, (w - 1) as nat);
        lemma_fundamental_div_mod(x as int, 2);
    }
}

/// A bit sequence of length `w` reads back as a value below `pow2(w)`.
pub broadcast proof fn lemma_u_val_bound(s: Seq<bool>)
    ensures
        #[trigger] u_val(s) < pow2(s.len()),
    decreases s.len(),
{
    if s.len() == 0 {
        assert(pow2(0) == 1) by {
            vstd::arithmetic::power2::lemma2_to64();
        }
    } else {
        lemma_u_val_bound(s.drop_first());
        lemma_pow2_unfold(s.len());
    }
}

/// Appending a bit adds its place value.
pub broadcast proof fn lemma_u_val_snoc(s: Seq<bool>, b: bool)
    ensures
        #[trigger] u_val(s.push(b)) == u_val(s) + (if b {
            pow2(s.len())
        } else {
            0nat
        }),
    decreases s.len(),
{
    if s.len() == 0 {
        assert(s.push(b).drop_first() =~= Seq::<bool>::empty());
        assert(s.push(b)[0] == b);
        assert(pow2(0) == 1) by {
            vstd::arithmetic::power2::lemma2_to64();
        }
        assert(s.push(b).len() == 1);
        assert(u_val(s.push(b).drop_first()) == 0);
        assert(u_val(s) == 0);
        assert(u_val(s.push(b)) == (if s.push(b)[0] {
            1nat
        } else {
            0nat
        }) + 2 * u_val(s.push(b).drop_first()));
    } else {
        assert(s.push(b).drop_first() =~= s.drop_first().push(b));
        assert(s.push(b)[0] == s[0]);
        assert(u_val(s.push(b)) == (if s[0] {
            1nat
        } else {
            0nat
        }) + 2 * u_val(s.drop_first().push(b)));
        lemma_u_val_snoc(s.drop_first(), b);
        lemma_pow2_unfold(s.len());
        assert(pow2(s.len()) == 2 * pow2((s.len() - 1) as nat));
        assert(u_val(s) == (if s[0] {
            1nat
        } else {
            0nat
        }) + 2 * u_val(s.drop_first()));
        assert(s.drop_first().len() == s.len() - 1);
    }
}

/// Bit `i` of the `w`-bit encoding of `x` is bit `i` of `x`.
pub proof fn lemma_u_bits_index(x: nat, w: nat, i: nat)
    requires
        i < w,
    ensures
        u_bits(x, w)[i as int] == ((x / pow2(i)) % 2 == 1),
    decreases i,
{
    lemma_u_bits_len(x, w);
    if i == 0 {
        assert(pow2(0) == 1) by {
            vstd::arithmetic::power2::lemma2_to64();
        }
    } else {
        lemma_u_bits_len(x / 2, (w - 1) as nat);
        assert(u_bits(x, w)[i as int] == u_bits(x / 2, (w - 1) as nat)[i - 1]);
        lemma_u_bits_index(x / 2, (w - 1) as nat, (i - 1) as nat);
        lemma_pow2_pos((i - 1) as nat);
        lemma_pow2_unfold(i);
        lemma_div_denominator(x as int, 2, pow2((i - 1) as nat) as int);
    }
}

/// Computes `pow2(e)` at run time, for table-capacity checks.
pub fn exec_pow2(e: u32) -> (r: u64)
    requires
        e <= 63,
    ensures
        r as nat == pow2(e as nat),
{
    let mut r: u64 = 1;
    let mut j: u32 = 0;
    proof {
        assert(pow2(0) == 1) by {
            vstd::arithmetic::power2::lemma2_to64();
        }
    }
    while j < e
        invariant
            j <= e,
            e <= 63,
            r as nat == pow2(j as nat),
        decreases e - j,
    {
        proof {
            lemma_pow2_unfold((j + 1) as nat);
            if (j + 1) < 64 {
                vstd::arithmetic::power2::lemma_pow2_strictly_increases((j + 1) as nat, 64);
            }
            assert(pow2(64) == 0x10000000000000000) by {
                vstd::arithmetic::power2::lemma2_to64();
            }
        }
        r = r * 2;
        j = j + 1;
    }
    r
}

} // verus!
