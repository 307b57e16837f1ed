//! Exact rational comparisons for rate ceilings.
//!
//! The corpora declare rate ceilings (loss rate, out-of-order rate, drop
//! ratio) as fractions of one. The engine keeps such a ceiling as an
//! integer in parts per million and compares it against an observed
//! `num / den` ratio by cross-multiplying, so every comparison is exact.

use vstd::prelude::*;

verus! {

/// Scale of all rate and ratio ceilings: parts per million.
pub const PPM_SCALE: u64 = 1_000_000;

/// The product of two values below 2^64 fits in a `u128`.
pub proof fn lemma_mul_u64_fits_u128(a: int, b: int)
    requires
        0 <= a < 0x1_0000_0000_0000_0000,
        0 <= b < 0x1_0000_0000_0000_0000,
    ensures
        a * b <= u128::MAX,
{
    assert(a * b <= (0x1_0000_0000_0000_0000 - 1) * (0x1_0000_0000_0000_0000 - 1))
        by (nonlinear_arith)
        requires
            0 <= a < 0x1_0000_0000_0000_0000,
            0 <= b < 0x1_0000_0000_0000_0000,
    ;
}

/// Whether the ratio `num / den` strictly exceeds `limit_ppm` parts per
/// million. A ratio with a zero denominator counts as zero, which exceeds
/// no ceiling.
pub fn ratio_exceeds(num: u64, den: u64, limit_ppm: u64) -> (r: bool)
    ensures
        r == (den > 0 && num * PPM_SCALE > limit_ppm * den),
{
    proof {
        lemma_mul_u64_fits_u128(num as int, PPM_SCALE as int);
        lemma_mul_u64_fits_u128(limit_ppm as int, den as int);
    }
    den > 0 && (num as u128) * (PPM_SCALE as u128) > (limit_ppm as u128) * (den as u128)
}

/// Whether the ratio `num / den` reaches at least `limit_ppm` parts per
/// million. A ratio with a zero denominator counts as zero, which reaches
/// only a zero threshold.
pub fn ratio_reaches(num: u64, den: u64, limit_ppm: u64) -> (r: bool)
    ensures
        r == if den == 0 {
            limit_ppm == 0
        } else {
            num * PPM_SCALE >= limit_ppm * den
        },
{
    proof {
        lemma_mul_u64_fits_u128(num as int, PPM_SCALE as int);
        lemma_mul_u64_fits_u128(limit_ppm as int, den as int);
    }
    if den == 0 {
        limit_ppm == 0
    } else {
        (num as u128) * (PPM_SCALE as u128) >= (limit_ppm as u128) * (den as u128)
    }
}

/// Whether the ratio `num / den` lies within `tol_ppm` parts per million of
/// `target_ppm`. A ratio with a zero denominator counts as zero.
pub fn ratio_within(num: u64, den: u64, target_ppm: u64, tol_ppm: u64) -> (r: bool)
    ensures
        r == if den == 0 {
            target_ppm <= tol_ppm
        } else if num * PPM_SCALE >= target_ppm * den {
            num * PPM_SCALE - target_ppm * den <= tol_ppm * den
        } else {
            target_ppm * den - num * PPM_SCALE <= tol_ppm * den
        },
{
    proof {
        lemma_mul_u64_fits_u128(num as int, PPM_SCALE as int);
        lemma_mul_u64_fits_u128(target_ppm as int, den as int);
        lemma_mul_u64_fits_u128(tol_ppm as int, den as int);
    }
    if den == 0 {
        return target_ppm <= tol_ppm;
    }
    let ratio_num = (num as u128) * (PPM_SCALE as u128);
    let target_num = (target_ppm as u128) * (den as u128);
    let tol_num = (tol_ppm as u128) * (den as u128);
    let delta = if ratio_num >= target_num {
        ratio_num - target_num
    } else {
        target_num - ratio_num
    };
    delta <= tol_num
}

} // verus!
