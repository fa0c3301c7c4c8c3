//! Scores: distances as ordered integers.
//!
//! A distance reaches the library as the IEEE-754 single-precision bit
//! pattern of a number. Among the finite numbers that are not below zero,
//! the bit pattern grows exactly as the number does, so the patterns
//! themselves serve as scores: lower is nearer.

use vstd::arithmetic::power2::{lemma_pow2_pos, lemma_pow2_strictly_increases, lemma_pow2_unfold, pow2};
use vstd::prelude::*;

verus! {

/// The sign bit of a bit pattern. The patterns from here on stand for the
/// numbers with the sign set.
pub const SIGN_BIT: u32 = 0x8000_0000;

/// The bit pattern of positive infinity. The patterns below it stand for
/// the finite numbers that are not below zero.
pub const INFINITY_BITS: u32 = 0x7F80_0000;

/// Number of values that the mantissa field of a bit pattern takes.
pub const MANTISSA_RANGE: u32 = 0x80_0000;

/// The score of no match: the bit pattern of the largest finite number. A
/// template wins only with a lower score.
pub const WORST_SCORE: u32 = 0x7F7F_FFFF;

/// Whether `bits` stands for no number at all.
pub open spec fn is_nan(bits: u32) -> bool {
    bits % SIGN_BIT > INFINITY_BITS
}

/// The score of the distance with the bit pattern `bits`: the pattern itself
/// for a number that is not below zero, zero for one below zero and for
/// minus zero, and the highest score of all for what is not a number.
pub open spec fn score_of_bits(bits: u32) -> u32 {
    if is_nan(bits) {
        u32::MAX
    } else if bits >= SIGN_BIT {
        0
    } else {
        bits
    }
}

/// The score of the distance with the bit pattern `distance_bits`.
pub fn score_of(distance_bits: u32) -> (score: u32)
    ensures
        score == score_of_bits(distance_bits),
{
    if distance_bits % SIGN_BIT > INFINITY_BITS {
        u32::MAX
    } else if distance_bits >= SIGN_BIT {
        0
    } else {
        distance_bits
    }
}

/// The number that the bit pattern `bits` of a finite number not below zero
/// stands for, in units of 2 to the power of -149: the mantissa field alone
/// where the exponent field is zero, and else the mantissa field with its
/// leading one, doubled once for each step of the exponent field above one.
pub open spec fn magnitude(bits: u32) -> nat
    recommends
        bits < INFINITY_BITS,
{
    let exponent = bits / MANTISSA_RANGE;
    let mantissa = bits % MANTISSA_RANGE;
    if exponent == 0 {
        mantissa as nat
    } else {
        ((MANTISSA_RANGE + mantissa) * pow2((exponent - 1) as nat)) as nat
    }
}

proof fn lemma_magnitude_grows(a: u32, b: u32)
    requires
        a < b < INFINITY_BITS,
    ensures
        magnitude(a) < magnitude(b),
{
    let range = MANTISSA_RANGE as int;
    let (ea, ma) = ((a / MANTISSA_RANGE) as int, (a % MANTISSA_RANGE) as int);
    let (eb, mb) = ((b / MANTISSA_RANGE) as int, (b % MANTISSA_RANGE) as int);
    assert(ea <= eb);
    if eb == 0 {
    } else {
        let pb = pow2((eb - 1) as nat) as int;
        lemma_pow2_pos((eb - 1) as nat);
        if ea == 0 {
            assert(ma < (range + mb) * pb) by (nonlinear_arith)
                requires
                    0 <= ma < range,
                    0 <= mb,
                    pb >= 1,
            ;
        } else {
            let pa = pow2((ea - 1) as nat) as int;
            lemma_pow2_pos((ea - 1) as nat);
            if ea == eb {
                assert((range + ma) * pa < (range + mb) * pb) by (nonlinear_arith)
                    requires
                        0 <= ma < mb,
                        pa == pb,
                        pa >= 1,
                ;
            } else {
                lemma_pow2_unfold(ea as nat);
                if ea < eb - 1 {
                    lemma_pow2_strictly_increases(ea as nat, (eb - 1) as nat);
                }
                assert((range + ma) * pa < (range + mb) * pb) by (nonlinear_arith)
                    requires
                        0 <= ma < range,
                        0 <= mb,
                        pa >= 1,
                        2 * pa <= pb,
                ;
            }
        }
    }
}

/// Among the finite numbers that are not below zero, bit patterns order as
/// the numbers they stand for: the lower pattern is the lower number.
pub proof fn lemma_scores_order_as_distances(a: u32, b: u32)
    requires
        a < INFINITY_BITS,
        b < INFINITY_BITS,
    ensures
        a < b <==> magnitude(a) < magnitude(b),
        a == b <==> magnitude(a) == magnitude(b),
{
    if a < b {
        lemma_magnitude_grows(a, b);
    } else if b < a {
        lemma_magnitude_grows(b, a);
    }
}

/// Every finite number that is not below zero has a score of at most
/// `WORST_SCORE`, and only the largest of them has that score.
pub proof fn lemma_worst_score_is_the_largest_finite(bits: u32)
    requires
        bits < INFINITY_BITS,
    ensures
        score_of_bits(bits) == bits,
        bits <= WORST_SCORE,
        magnitude(bits) <= magnitude(WORST_SCORE),
{
    lemma_scores_order_as_distances(bits, WORST_SCORE);
}

} // verus!
