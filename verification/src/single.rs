//! Single-precision numbers as the vision process hands them over: by their
//! IEEE 754 bits. Only their order matters to a decision, so only that is
//! computed here.
use vstd::arithmetic::power2::{lemma2_to64, lemma_pow2_adds, lemma_pow2_pos, pow2};
use vstd::prelude::*;

verus! {

/// The bits below the sign.
pub open spec fn magnitude(bits: u32) -> int {
    bits as int % 0x8000_0000
}

pub open spec fn is_negative(bits: u32) -> bool {
    bits >= 0x8000_0000
}

pub open spec fn is_nan(bits: u32) -> bool {
    magnitude(bits) > 0x7F80_0000
}

/// The absolute value, in units of the smallest subnormal 2^-149, of the number
/// whose bits below the sign are `m`: eight bits of exponent above 23 bits of
/// fraction, with an implied leading one unless the exponent is zero. Infinity
/// comes out as 2^128, above every finite number.
pub open spec fn scaled_magnitude(m: int) -> int {
    let exponent = m / 0x80_0000;
    let fraction = m % 0x80_0000;
    if exponent == 0 {
        fraction
    } else {
        (0x80_0000 + fraction) * pow2((exponent - 1) as nat)
    }
}

/// The number that `bits` stand for, in units of 2^-149.
pub open spec fn scaled(bits: u32) -> int {
    if is_negative(bits) {
        -scaled_magnitude(magnitude(bits))
    } else {
        scaled_magnitude(magnitude(bits))
    }
}

/// Whether `a < b` as IEEE 754 numbers. Nothing is less than NaN, and NaN is
/// less than nothing.
pub open spec fn less(a: u32, b: u32) -> bool {
    !is_nan(a) && !is_nan(b) && scaled(a) < scaled(b)
}

/// Whether the number is below the whole number `n`.
pub open spec fn below(bits: u32, n: nat) -> bool {
    !is_nan(bits) && scaled(bits) < n * pow2(149)
}

proof fn lemma_scaled_magnitude_increases(a: int, b: int)
    requires
        0 <= a < b,
    ensures
        0 <= scaled_magnitude(a) < scaled_magnitude(b),
{
    let (ea, fa) = (a / 0x80_0000, a % 0x80_0000);
    let (eb, fb) = (b / 0x80_0000, b % 0x80_0000);
    if eb > 0 {
        let pb = pow2((eb - 1) as nat) as int;
        lemma_pow2_pos((eb - 1) as nat);
        if ea == eb {
            assert((0x80_0000 + fa) * pb < (0x80_0000 + fb) * pb) by (nonlinear_arith)
                requires
                    fa < fb,
                    pb > 0,
            ;
            assert(0 <= (0x80_0000 + fa) * pb) by (nonlinear_arith)
                requires
                    fa >= 0,
                    pb > 0,
            ;
        } else if ea == 0 {
            assert(0x80_0000 <= (0x80_0000 + fb) * pb) by (nonlinear_arith)
                requires
                    fb >= 0,
                    pb >= 1,
            ;
        } else {
            let pa = pow2((ea - 1) as nat) as int;
            let gap = pow2((eb - ea) as nat) as int;
            lemma_pow2_pos((ea - 1) as nat);
            lemma_pow2_adds((ea - 1) as nat, (eb - ea) as nat);
            lemma_pow2_adds(1, (eb - ea - 1) as nat);
            lemma_pow2_pos((eb - ea - 1) as nat);
            lemma2_to64();
            let half = pow2((eb - ea - 1) as nat) as int;
            assert(gap == 2 * half);
            assert(pb == pa * gap);
            assert((0x80_0000 + fa) * pa < (0x80_0000 + fb) * (pa * gap)) by (nonlinear_arith)
                requires
                    0 <= fa < 0x80_0000,
                    fb >= 0,
                    pa > 0,
                    gap >= 2,
            {
                assert((0x80_0000 + fa) * pa < 0x100_0000 * pa);
                assert(0x100_0000 * pa <= 0x80_0000 * (pa * gap));
                assert(0x80_0000 * (pa * gap) <= (0x80_0000 + fb) * (pa * gap));
            }
            assert(0 <= (0x80_0000 + fa) * pa) by (nonlinear_arith)
                requires
                    fa >= 0,
                    pa > 0,
            ;
        }
    }
}

proof fn lemma_order_of_magnitudes(a: int, b: int)
    requires
        0 <= a,
        0 <= b,
    ensures
        scaled_magnitude(0) == 0,
        a < b <==> scaled_magnitude(a) < scaled_magnitude(b),
        0 < a <==> 0 < scaled_magnitude(a),
        0 < b <==> 0 < scaled_magnitude(b),
        0 <= scaled_magnitude(a),
        0 <= scaled_magnitude(b),
{
    if a < b {
        lemma_scaled_magnitude_increases(a, b);
    }
    if b < a {
        lemma_scaled_magnitude_increases(b, a);
    }
    if 0 < a {
        lemma_scaled_magnitude_increases(0, a);
    }
    if 0 < b {
        lemma_scaled_magnitude_increases(0, b);
    }
}

/// Compares two single-precision numbers by their bits.
pub fn less_than(a: u32, b: u32) -> (r: bool)
    ensures
        r == less(a, b),
{
    let (ma, mb): (u32, u32) = (a % 0x8000_0000, b % 0x8000_0000);
    let (a_negative, b_negative) = (a >= 0x8000_0000, b >= 0x8000_0000);
    proof {
        lemma_order_of_magnitudes(ma as int, mb as int);
        lemma_order_of_magnitudes(mb as int, ma as int);
    }
    if ma > 0x7F80_0000 || mb > 0x7F80_0000 {
        false
    } else if !a_negative && !b_negative {
        ma < mb
    } else if a_negative && b_negative {
        mb < ma
    } else if a_negative {
        ma != 0 || mb != 0
    } else {
        false
    }
}

/// The bits of 500.0.
pub const FIVE_HUNDRED: u32 = 0x43FA_0000;

/// The bits of 1800.0.
pub const EIGHTEEN_HUNDRED: u32 = 0x44E1_0000;

/// The two constants stand for 500 and 1800.
pub proof fn lemma_constants()
    ensures
        !is_nan(FIVE_HUNDRED),
        scaled(FIVE_HUNDRED) == 500 * pow2(149),
        !is_nan(EIGHTEEN_HUNDRED),
        scaled(EIGHTEEN_HUNDRED) == 1800 * pow2(149),
{
    lemma2_to64();
    lemma_pow2_adds(15, 134);
    assert(scaled_magnitude(FIVE_HUNDRED as int) == 0xFA_0000 * pow2(134));
    lemma_pow2_adds(13, 136);
    assert(scaled_magnitude(EIGHTEEN_HUNDRED as int) == 0xE1_0000 * pow2(136));
    assert(pow2(13) == 0x2000);
}

/// What being below 500 and below 1800 means for the bits: every negative
/// number is, minus infinity included, and of the others those with smaller
/// bits. NaN, whose bits lie above those of the infinities, is not.
pub proof fn law_below_by_bits(bits: u32)
    ensures
        below(bits, 500) <==> bits < 0x43FA_0000 || 0x8000_0000 <= bits <= 0xFF80_0000,
        below(bits, 1800) <==> bits < 0x44E1_0000 || 0x8000_0000 <= bits <= 0xFF80_0000,
{
    lemma_constants();
    lemma_order_of_magnitudes(magnitude(bits), magnitude(FIVE_HUNDRED));
    lemma_order_of_magnitudes(magnitude(bits), magnitude(EIGHTEEN_HUNDRED));
}

/// The order of numbers, by their bits: below the sign bit bigger bits are
/// bigger numbers, above it smaller ones; a negative number is below every other,
/// but for the two zeros, which are equal; and NaN compares with nothing.
pub proof fn law_order_by_bits(a: u32, b: u32)
    ensures
        ({
            let (ma, mb) = (a as int % 0x8000_0000, b as int % 0x8000_0000);
            let (na, nb) = (a >= 0x8000_0000, b >= 0x8000_0000);
            let numbers = ma <= 0x7F80_0000 && mb <= 0x7F80_0000;
            &&& !numbers ==> !less(a, b)
            &&& numbers && !na && !nb ==> (less(a, b) <==> ma < mb)
            &&& numbers && na && nb ==> (less(a, b) <==> mb < ma)
            &&& numbers && na && !nb ==> (less(a, b) <==> ma > 0 || mb > 0)
            &&& numbers && !na && nb ==> !less(a, b)
        }),
{
    lemma_order_of_magnitudes(magnitude(a), magnitude(b));
    lemma_order_of_magnitudes(magnitude(b), magnitude(a));
}

} // verus!
