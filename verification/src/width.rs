//! Minimal bit width of a value: the number of bits needed to store it.

use vstd::prelude::*;
use vstd::arithmetic::power2::{pow2, lemma_pow2_unfold, lemma_pow2_pos, lemma2_to64};

verus! {

/// Number of bits needed to represent `v`: the least `w` with `v < 2^w`,
/// which is `⌈log2(v+1)⌉` (and `0` for `v == 0`).
pub open spec fn bit_width(v: nat) -> nat
    decreases v,
{
    if v == 0 {
        0
    } else {
        1 + bit_width(v / 2)
    }
}

/// `v` always fits in `bit_width(v)` bits.
pub proof fn lemma_bit_width_fits(v: nat)
    ensures
        v < pow2(bit_width(v)),
    decreases v,
{
    if v == 0 {
        lemma_pow2_pos(0);
    } else {
        lemma_bit_width_fits(v / 2);
        lemma_pow2_unfold(bit_width(v));
    }
}

/// `bit_width` is the least such width: any width that holds `v` is at least `bit_width(v)`.
pub proof fn lemma_bit_width_minimal(v: nat, w: nat)
    requires
        v < pow2(w),
    ensures
        bit_width(v) <= w,
    decreases v,
{
    if v > 0 {
        if w == 0 {
            assert(pow2(0) == 1) by {
                lemma2_to64();
            }
        } else {
            lemma_pow2_unfold(w);
            lemma_bit_width_minimal(v / 2, (w - 1) as nat);
        }
    }
}

/// The width the deferred-width builder settles on: the largest minimal bit
/// width over the values, `0` for none.
pub open spec fn max_bit_width(vals: Seq<u64>) -> nat
    decreases vals.len(),
{
    if vals.len() == 0 {
        0
    } else {
        let rest = max_bit_width(vals.drop_last());
        let last = bit_width(vals.last() as nat);
        if last > rest {
            last
        } else {
            rest
        }
    }
}

/// Every value's own bit width is at most the maximum over the sequence.
pub proof fn lemma_max_bit_width_le(vals: Seq<u64>, i: int)
    requires
        0 <= i < vals.len(),
    ensures
        bit_width(vals[i] as nat) <= max_bit_width(vals),
    decreases vals.len(),
{
    if i + 1 < vals.len() {
        lemma_max_bit_width_le(vals.drop_last(), i);
    }
}

/// Appending a value takes the maximum of the old width and the value's own.
pub proof fn lemma_max_bit_width_push(vals: Seq<u64>, v: u64)
    ensures
        max_bit_width(vals.push(v)) == if bit_width(v as nat) > max_bit_width(vals) {
            bit_width(v as nat)
        } else {
            max_bit_width(vals)
        },
{
    assert(vals.push(v).drop_last() =~= vals);
}

/// A value fits in any width at least its own bit width.
pub proof fn lemma_fits_of_bit_width(v: u64, w: int)
    requires
        bit_width(v as nat) <= w,
    ensures
        crate::model::fits_width(v, w),
{
    if w < 64 {
        lemma_bit_width_fits(v as nat);
        if bit_width(v as nat) < w {
            vstd::arithmetic::power2::lemma_pow2_strictly_increases(bit_width(v as nat), w as nat);
        }
    }
}

/// Computes the minimal bit width of a value: `0` for `0`, else `⌈log2(v+1)⌉`.
pub fn calculate_width(val: u64) -> (w: u8)
    ensures
        w == bit_width(val as nat),
        w <= 64,
{
    proof {
        assert(val < pow2(64)) by {
            lemma2_to64();
        }
        lemma_bit_width_minimal(val as nat, 64);
    }
    let mut v: u64 = val;
    let mut w: u8 = 0;
    while v != 0
        invariant
            w + bit_width(v as nat) == bit_width(val as nat),
            bit_width(val as nat) <= 64,
        decreases v,
    {
        proof {
            assert(v as nat / 2 == (v / 2) as nat);
        }
        v = v / 2;
        w = w + 1;
    }
    w
}

} // verus!
