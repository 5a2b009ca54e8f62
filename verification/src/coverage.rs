//! Coverage, the part of a pixel that a glyph covers, and its threshold.
//!
//! The font's rasterizer computes coverage as a single-precision number. The
//! library carries such a number as its bit pattern, a `u32`: one sign bit,
//! eight bits of exponent, 23 bits of fraction. This module says which
//! number a pattern stands for, and proves that a pattern stands for a
//! number above the threshold exactly when the pattern, read as an integer,
//! lies above the threshold's pattern and not above that of infinity.

use vstd::prelude::*;
use vstd::arithmetic::power2::{
    lemma2_to64, lemma_pow2_adds, lemma_pow2_pos, lemma_pow2_strictly_increases,
    lemma_pow2_unfold, pow2,
};

verus! {

/// Bit pattern of the threshold, the single-precision number nearest to 0.55.
pub const INK_THRESHOLD: u32 = 0x3F0C_CCCD;

/// Bit pattern of positive infinity. Above it, with the sign bit clear, lie
/// the patterns that stand for no number; from `0x8000_0000` on the sign bit
/// is set.
pub const POSITIVE_INFINITY: u32 = 0x7F80_0000;

/// The exponent field of a pattern: bits 23 to 30.
pub open spec fn exponent_field(bits: u32) -> nat {
    ((bits as nat) / 0x80_0000) % 0x100
}

/// The fraction field of a pattern: bits 0 to 22.
pub open spec fn fraction_field(bits: u32) -> nat {
    (bits as nat) % 0x80_0000
}

/// Whether the sign bit is set.
pub open spec fn is_negative(bits: u32) -> bool {
    bits >= 0x8000_0000
}

/// Whether the pattern stands for a number that is not infinite.
pub open spec fn is_finite(bits: u32) -> bool {
    exponent_field(bits) < 0xFF
}

/// Whether the pattern stands for a number, finite or infinite.
pub open spec fn is_number(bits: u32) -> bool {
    is_finite(bits) || fraction_field(bits) == 0
}

/// The size of a finite number, in units of 2 to the power of -149: the
/// number that `bits` stands for is this many units, taken negative if the
/// sign bit is set.
pub open spec fn magnitude(bits: u32) -> nat
    recommends
        is_finite(bits),
{
    if exponent_field(bits) == 0 {
        fraction_field(bits)
    } else {
        (0x80_0000 + fraction_field(bits)) * pow2((exponent_field(bits) - 1) as nat)
    }
}

/// Whether a coverage with this bit pattern is ink: a number strictly above
/// the threshold. The threshold itself, every smaller number, every negative
/// number and every pattern that stands for no number are not.
pub open spec fn coverage_is_ink(coverage: u32) -> bool {
    &&& is_number(coverage)
    &&& !is_negative(coverage)
    &&& is_finite(coverage) ==> magnitude(coverage) > magnitude(INK_THRESHOLD)
}

/// A product grows with its first factor.
proof fn lemma_scale_strictly(small: nat, large: nat, unit: nat)
    requires
        small < large,
        unit > 0,
    ensures
        small * unit < large * unit,
{
    assert(small * unit < large * unit) by (nonlinear_arith)
        requires
            small < large,
            unit > 0,
    ;
}

/// A product grows with its second factor.
proof fn lemma_scale_unit(factor: nat, small: nat, large: nat)
    requires
        small <= large,
    ensures
        factor * small <= factor * large,
{
    assert(factor * small <= factor * large) by (nonlinear_arith)
        requires
            small <= large,
    ;
}

/// A pattern without the sign bit is its exponent field times 2 to the
/// power of 23, plus its fraction field.
proof fn lemma_fields(bits: u32)
    requires
        !is_negative(bits),
    ensures
        bits == exponent_field(bits) * 0x80_0000 + fraction_field(bits),
        fraction_field(bits) < 0x80_0000,
        exponent_field(bits) <= 0xFF,
{
}

/// Among the finite numbers that are not negative, the order of the
/// patterns is the order of the numbers.
pub proof fn lemma_magnitude_order(a: u32, b: u32)
    requires
        a < POSITIVE_INFINITY,
        b < POSITIVE_INFINITY,
    ensures
        a < b <==> magnitude(a) < magnitude(b),
        a == b <==> magnitude(a) == magnitude(b),
{
    if a < b {
        lemma_magnitude_grows(a, b);
    } else if b < a {
        lemma_magnitude_grows(b, a);
    }
}

/// Of two finite numbers that are not negative, the one with the larger
/// pattern is the larger.
proof fn lemma_magnitude_grows(a: u32, b: u32)
    requires
        a < b,
        b < POSITIVE_INFINITY,
    ensures
        magnitude(a) < magnitude(b),
{
    lemma_fields(a);
    lemma_fields(b);
    let ea = exponent_field(a);
    let eb = exponent_field(b);
    let fa = fraction_field(a);
    let fb = fraction_field(b);
    assert(ea <= eb);
    if ea == eb {
        assert(fa < fb);
        if ea > 0 {
            let unit = pow2((ea - 1) as nat);
            lemma_pow2_pos((ea - 1) as nat);
            lemma_scale_strictly(0x80_0000 + fa, 0x80_0000 + fb, unit);
        }
    } else {
        let unit_b = pow2((eb - 1) as nat);
        lemma_pow2_pos((eb - 1) as nat);
        lemma_scale_unit(unit_b, 0x80_0000, 0x80_0000 + fb);
        assert(magnitude(b) >= 0x80_0000 * unit_b) by (nonlinear_arith)
            requires
                magnitude(b) == (0x80_0000 + fb) * unit_b,
                unit_b * 0x80_0000 <= unit_b * (0x80_0000 + fb),
        ;
        if ea == 0 {
            assert(0x80_0000 * unit_b >= 0x80_0000) by (nonlinear_arith)
                requires
                    unit_b > 0,
            ;
        } else {
            let unit_a = pow2((ea - 1) as nat);
            lemma_pow2_pos((ea - 1) as nat);
            lemma_pow2_unfold(ea);
            assert(pow2(ea) == 2 * unit_a);
            if ea < eb - 1 {
                lemma_pow2_strictly_increases(ea, (eb - 1) as nat);
            }
            assert(2 * unit_a <= unit_b);
            lemma_scale_strictly(0x80_0000 + fa, 0x100_0000, unit_a);
            assert(magnitude(a) < 0x80_0000 * unit_b) by (nonlinear_arith)
                requires
                    magnitude(a) == (0x80_0000 + fa) * unit_a,
                    (0x80_0000 + fa) * unit_a < 0x100_0000 * unit_a,
                    2 * unit_a <= unit_b,
            ;
        }
    }
}

/// The threshold on patterns: a coverage is ink exactly when its pattern,
/// read as an integer, is above the threshold's and not above that of
/// infinity.
pub proof fn lemma_ink_by_pattern(coverage: u32)
    ensures
        coverage_is_ink(coverage) <==> INK_THRESHOLD < coverage <= POSITIVE_INFINITY,
{
    if !is_negative(coverage) {
        lemma_fields(coverage);
        if coverage < POSITIVE_INFINITY {
            lemma_magnitude_order(coverage, INK_THRESHOLD);
        }
    }
}

/// The threshold is strict: a coverage of exactly the threshold is no ink,
/// the next number above it is, and so is every number above the threshold,
/// infinity too.
pub proof fn lemma_threshold_is_strict()
    ensures
        !coverage_is_ink(INK_THRESHOLD),
        coverage_is_ink((INK_THRESHOLD + 1) as u32),
        coverage_is_ink(POSITIVE_INFINITY),
        forall|coverage: u32|
            is_finite(coverage) && !is_negative(coverage) && magnitude(coverage) > magnitude(
                INK_THRESHOLD,
            ) ==> #[trigger] coverage_is_ink(coverage),
{
    lemma_ink_by_pattern(INK_THRESHOLD);
    lemma_ink_by_pattern((INK_THRESHOLD + 1) as u32);
    lemma_ink_by_pattern(POSITIVE_INFINITY);
}

/// How far the number of a finite pattern that is not negative lies from
/// 0.55, in units of 2 to the power of -149, times 100.
pub open spec fn distance_to_threshold(bits: u32) -> int
    recommends
        is_finite(bits),
        !is_negative(bits),
{
    let offset = 100 * magnitude(bits) - 55 * pow2(149);
    if offset < 0 {
        -offset
    } else {
        offset
    }
}

/// The threshold is the single-precision number nearest to 0.55: every other
/// finite number that is not negative lies farther from 0.55.
pub proof fn lemma_threshold_is_nearest(bits: u32)
    requires
        bits < POSITIVE_INFINITY,
        bits != INK_THRESHOLD,
    ensures
        distance_to_threshold(bits) > distance_to_threshold(INK_THRESHOLD),
{
    let unit = pow2(125);
    lemma_pow2_pos(125);
    lemma_pow2_adds(24, 125);
    lemma2_to64();
    assert(pow2(149) == 0x100_0000 * unit);
    let below: u32 = (INK_THRESHOLD - 1) as u32;
    let above: u32 = (INK_THRESHOLD + 1) as u32;
    assert(exponent_field(INK_THRESHOLD) == 126 && fraction_field(INK_THRESHOLD) == 0x0C_CCCD);
    assert(exponent_field(below) == 126 && fraction_field(below) == 0x0C_CCCC);
    assert(exponent_field(above) == 126 && fraction_field(above) == 0x0C_CCCE);
    assert(magnitude(INK_THRESHOLD) == 0x8C_CCCD * unit);
    assert(magnitude(below) == 0x8C_CCCC * unit);
    assert(magnitude(above) == 0x8C_CCCE * unit);
    assert(100 * magnitude(INK_THRESHOLD) - 55 * pow2(149) == 20 * unit) by (nonlinear_arith)
        requires
            magnitude(INK_THRESHOLD) == 0x8C_CCCD * unit,
            pow2(149) == 0x100_0000 * unit,
    ;
    if bits < INK_THRESHOLD {
        if bits < below {
            lemma_magnitude_order(bits, below);
        }
        assert(100 * magnitude(bits) - 55 * pow2(149) <= -80 * unit) by (nonlinear_arith)
            requires
                magnitude(bits) <= magnitude(below),
                magnitude(below) == 0x8C_CCCC * unit,
                pow2(149) == 0x100_0000 * unit,
        ;
    } else {
        if above < bits {
            lemma_magnitude_order(above, bits);
        }
        assert(100 * magnitude(bits) - 55 * pow2(149) >= 120 * unit) by (nonlinear_arith)
            requires
                magnitude(bits) >= magnitude(above),
                magnitude(above) == 0x8C_CCCE * unit,
                pow2(149) == 0x100_0000 * unit,
        ;
    }
}

/// Whether a coverage with this bit pattern is strictly above the threshold.
pub fn is_ink(coverage: u32) -> (ink: bool)
    ensures
        ink == coverage_is_ink(coverage),
{
    proof {
        lemma_ink_by_pattern(coverage);
    }
    INK_THRESHOLD < coverage && coverage <= POSITIVE_INFINITY
}

} // verus!
