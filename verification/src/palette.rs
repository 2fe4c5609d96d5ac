//! The palette: the magma color map, the conversion of its channel values
//! to the bytes of packed colors, and the palette entry that the value of a
//! band selects.
//!
//! A channel value is a binary64 number, the value of a band a binary32
//! number. Verified code holds each as its bit pattern and computes on the
//! fields of that pattern in integers.

use vstd::prelude::*;

use vstd::arithmetic::div_mod::lemma_div_is_ordered_by_denominator;
use vstd::arithmetic::power2::{lemma2_to64, lemma2_to64_rest, lemma_pow2_strictly_increases, pow2};
use vstd::bits::{lemma_u64_pow2_no_overflow, lemma_u64_shl_is_mul, lemma_u64_shr_is_div};

use crate::visualizer::pack_rgb;
use crate::FF_BUFF;

verus! {

/// The sign of a binary64 bit pattern: 1 for a negative number.
pub open spec fn sign_bit(bits: u64) -> int {
    bits as int / 0x8000_0000_0000_0000
}

/// The exponent field of a binary64 bit pattern. A normal number with
/// exponent field `e` and fraction field `f` has the value
/// `(2^52 + f) * 2^(e - 1075)`.
pub open spec fn exponent_field(bits: u64) -> int {
    (bits as int / 0x10_0000_0000_0000) % 0x800
}

/// The fraction field of a binary64 bit pattern.
pub open spec fn fraction_field(bits: u64) -> int {
    bits as int % 0x10_0000_0000_0000
}

/// The multiple of `unit` nearest to `n`; of two that are equally near,
/// the even multiple.
pub open spec fn nearest_multiple(n: int, unit: int) -> int {
    let below = n / unit;
    let rest = n % unit;
    if 2 * rest < unit || (2 * rest == unit && below % 2 == 0) {
        below * unit
    } else {
        (below + 1) * unit
    }
}

/// 255 times the significand `2^52 + fraction` of a normal number, as
/// binary64 multiplication rounds it: the product has 60 or 61 bits, of
/// which the leading 53 are kept, rounded to nearest with ties to even.
pub open spec fn scaled_significand(fraction: int) -> int {
    let product = 255 * (0x10_0000_0000_0000 + fraction);
    nearest_multiple(
        product,
        if product < 0x1000_0000_0000_0000 {
            128
        } else {
            256
        },
    )
}

/// The level of a channel whose value has the bit pattern `bits`: the value
/// is multiplied by 255 in binary64 arithmetic and the fraction of the
/// product is cut off. A negative value, a zero and a NaN give 0; a product
/// beyond `u32::MAX` gives `u32::MAX`. A value between 0 and 1 gives a byte.
pub open spec fn channel_level(bits: u64) -> u32 {
    let exponent = exponent_field(bits);
    if sign_bit(bits) == 1 || exponent == 0 {
        0
    } else if exponent == 0x7ff {
        if fraction_field(bits) == 0 {
            u32::MAX
        } else {
            0
        }
    } else if exponent >= 1075 {
        u32::MAX
    } else {
        let unit = pow2((1075 - exponent) as nat) as int;
        let whole = scaled_significand(fraction_field(bits)) / unit;
        if whole > u32::MAX {
            u32::MAX
        } else {
            whole as u32
        }
    }
}

/// The packed colors of a sequence of colors that are given by the bit
/// patterns of their red, green and blue channel values.
pub open spec fn packed(samples: Seq<(u64, u64, u64)>) -> Seq<u32> {
    Seq::new(
        samples.len(),
        |i: int|
            pack_rgb(
                channel_level(samples[i].0),
                channel_level(samples[i].1),
                channel_level(samples[i].2),
            ),
    )
}

/// The colors that the magma color map of the `colorgrad` crate gives at
/// `count` evenly spaced positions, each as the bit patterns of its red,
/// green and blue channel values.
pub uninterp spec fn magma_bits(count: nat) -> Seq<(u64, u64, u64)>;

/// Samples the magma color map of `colorgrad` at `count` evenly spaced
/// positions (`colorgrad::magma().colors(count)`) and hands out the red,
/// green and blue fields of each color as bit patterns (`f64::to_bits`).
/// Not proved, but taken from that crate: the result has `count` entries,
/// and it depends on `count` alone.
#[verifier::external_body]
pub(crate) fn magma_samples(count: u16) -> (samples: Vec<(u64, u64, u64)>)
    ensures
        samples@ == magma_bits(count as nat),
        samples@.len() == count,
{
    colorgrad::magma().colors(count as usize).iter().map(
        |color| (color.r.to_bits(), color.g.to_bits(), color.b.to_bits()),
    ).collect()
}

/// Rounds `n` to the nearest multiple of `unit`, ties to the even multiple.
fn round_to_multiple(n: u64, unit: u64) -> (multiple: u64)
    requires
        unit > 0,
        n + unit <= u64::MAX,
    ensures
        multiple == nearest_multiple(n as int, unit as int),
        multiple <= n + unit,
{
    let below = n / unit;
    let rest = n % unit;
    assert(below * unit + rest == n && (below + 1) * unit == below * unit + unit)
        by (nonlinear_arith)
        requires
            unit > 0,
            below == n / unit,
            rest == n % unit,
    ;
    if rest < unit - rest || (rest == unit - rest && below % 2 == 0) {
        below * unit
    } else {
        (below + 1) * unit
    }
}

/// Converts a channel value, given by its bit pattern, to its level: 255
/// times the value, without the fraction.
pub fn channel_byte(bits: u64) -> (level: u32)
    ensures
        level == channel_level(bits),
{
    let sign: u64 = bits / 0x8000_0000_0000_0000;
    let exponent: u64 = (bits / 0x10_0000_0000_0000) % 0x800;
    let fraction: u64 = bits % 0x10_0000_0000_0000;
    if sign == 1 || exponent == 0 {
        return 0;
    }
    if exponent == 0x7ff {
        return if fraction == 0 {
            u32::MAX
        } else {
            0
        };
    }
    if exponent >= 1075 {
        return u32::MAX;
    }
    let product: u64 = 255 * (0x10_0000_0000_0000 + fraction);
    let unit: u64 = if product < 0x1000_0000_0000_0000 {
        128
    } else {
        256
    };
    let scaled = round_to_multiple(product, unit);
    let shift: u64 = 1075 - exponent;
    if shift >= 64 {
        proof {
            lemma2_to64();
            if shift > 64 {
                lemma_pow2_strictly_increases(64, shift as nat);
            }
            let divisor = pow2(shift as nat) as int;
            assert(scaled as int / divisor == 0) by (nonlinear_arith)
                requires
                    0 <= scaled < divisor,
            ;
        }
        return 0;
    }
    proof {
        lemma_u64_shr_is_div(scaled, shift);
    }
    let whole = scaled >> shift;
    if whole > 0xffff_ffff {
        u32::MAX
    } else {
        whole as u32
    }
}

/// Packs each color into one word: the levels of its red, green and blue
/// channels, red in bits 16 to 23, green in bits 8 to 15, blue in bits 0
/// to 7.
pub fn pack_colors(samples: &[(u64, u64, u64)]) -> (colors: Vec<u32>)
    ensures
        colors@ == packed(samples@),
{
    let mut colors: Vec<u32> = Vec::with_capacity(samples.len());
    let mut i: usize = 0;
    while i < samples.len()
        invariant
            i <= samples.len(),
            colors@ == packed(samples@.take(i as int)),
        decreases samples.len() - i,
    {
        let (red, green, blue) = samples[i];
        let r = channel_byte(red);
        let g = channel_byte(green);
        let b = channel_byte(blue);
        colors.push((r << 16) | (g << 8) | b);
        assert(colors@ =~= packed(samples@.take(i + 1)));
        i += 1;
    }
    assert(samples@.take(samples.len() as int) =~= samples@);
    colors
}

/// The sign of a binary32 bit pattern: 1 for a negative number.
pub open spec fn single_sign(bits: u32) -> int {
    bits as int / 0x8000_0000
}

/// The exponent field of a binary32 bit pattern. A normal number with
/// exponent field `e` and fraction field `f` has the value
/// `(2^23 + f) * 2^(e - 150)`.
pub open spec fn single_exponent(bits: u32) -> int {
    (bits as int / 0x80_0000) % 0x100
}

/// The fraction field of a binary32 bit pattern.
pub open spec fn single_fraction(bits: u32) -> int {
    bits as int % 0x80_0000
}

/// The exponent field from which on `FF_BUFF` times a normal binary32
/// number is a whole number: with exponent field `e` and fraction field
/// `f` the product is `(2^23 + f) * 2^(e - LEVEL_EXPONENT)`.
pub const LEVEL_EXPONENT: u32 = 143;

/// The level of a band whose value has the bit pattern `bits`: `FF_BUFF`
/// times the value, rounded to the nearest whole number, halves away from
/// zero. A negative value and a NaN give 0; a product beyond `usize::MAX`
/// gives `usize::MAX`.
pub open spec fn scaled_level(bits: u32) -> usize {
    let exponent = single_exponent(bits);
    let significand = 0x80_0000 + single_fraction(bits);
    if single_sign(bits) == 1 || exponent == 0 {
        0
    } else if exponent == 0xff {
        if single_fraction(bits) == 0 {
            usize::MAX
        } else {
            0
        }
    } else if exponent >= LEVEL_EXPONENT {
        let whole = significand * pow2((exponent - LEVEL_EXPONENT) as nat);
        if whole > usize::MAX {
            usize::MAX
        } else {
            whole as usize
        }
    } else {
        let unit = pow2((LEVEL_EXPONENT - exponent) as nat) as int;
        ((2 * significand + unit) / (2 * unit)) as usize
    }
}

/// A value between 0 and 1 has a level between 0 and `FF_BUFF`: a pattern
/// that is at most that of the number 1 stands for such a value. The level
/// `FF_BUFF`, which wraps around to the first palette entry, is reached
/// from the value `1 - 1 / (2 * FF_BUFF)` on, whose pattern is
/// `0x3f7f_0000`.
pub proof fn lemma_unit_value_level(bits: u32)
    requires
        bits <= 0x3f80_0000,
    ensures
        scaled_level(bits) <= FF_BUFF,
        bits <= 0x3f7e_ffff ==> scaled_level(bits) < FF_BUFF,
{
    let exponent = single_exponent(bits);
    let significand = 0x80_0000 + single_fraction(bits);
    if 0 < exponent {
        let unit = pow2((LEVEL_EXPONENT - exponent) as nat) as int;
        lemma2_to64();
        if exponent == 127 {
            assert(significand == 0x80_0000);
        } else {
            if exponent < 126 {
                lemma_pow2_strictly_increases(17, (LEVEL_EXPONENT - exponent) as nat);
            }
            assert((2 * significand + unit) / (2 * unit) <= 128) by (nonlinear_arith)
                requires
                    0 <= significand < 0x100_0000,
                    unit >= 0x2_0000,
            ;
            if bits <= 0x3f7e_ffff {
                if exponent == 126 {
                    assert((2 * significand + unit) / (2 * unit) < 128) by (nonlinear_arith)
                        requires
                            0 <= significand <= 0xfe_ffff,
                            unit == 0x2_0000,
                    ;
                } else {
                    if exponent < 125 {
                        lemma_pow2_strictly_increases(18, (LEVEL_EXPONENT - exponent) as nat);
                    }
                    assert((2 * significand + unit) / (2 * unit) < 128) by (nonlinear_arith)
                        requires
                            0 <= significand < 0x100_0000,
                            unit >= 0x4_0000,
                    ;
                }
            }
        }
    }
}

/// `LEVEL_EXPONENT` belongs to `FF_BUFF`: a binary32 number with that
/// exponent field is a multiple of `2^(LEVEL_EXPONENT - 150)`, which is one
/// in `FF_BUFF`.
pub proof fn lemma_level_exponent()
    ensures
        FF_BUFF == pow2((150 - LEVEL_EXPONENT) as nat),
{
    lemma2_to64();
}

/// 2 to the power of `exponent`.
fn power_of_two(exponent: u64) -> (power: u64)
    requires
        exponent < 64,
    ensures
        power == pow2(exponent as nat),
{
    proof {
        lemma_u64_pow2_no_overflow(exponent as nat);
        lemma_u64_shl_is_mul(1, exponent);
    }
    1u64 << exponent
}

/// Computes the level of a band from the bit pattern of its value.
pub fn band_level(bits: u32) -> (level: usize)
    ensures
        level == scaled_level(bits),
{
    let sign: u32 = bits / 0x8000_0000;
    let exponent: u32 = (bits / 0x80_0000) % 0x100;
    let fraction: u32 = bits % 0x80_0000;
    if sign == 1 || exponent == 0 {
        return 0;
    }
    if exponent == 0xff {
        return if fraction == 0 {
            usize::MAX
        } else {
            0
        };
    }
    let significand: u64 = 0x80_0000 + fraction as u64;
    if exponent >= LEVEL_EXPONENT {
        let shift: u64 = (exponent - LEVEL_EXPONENT) as u64;
        if shift >= 41 {
            proof {
                lemma2_to64_rest();
                if shift > 41 {
                    lemma_pow2_strictly_increases(41, shift as nat);
                }
                let power = pow2(shift as nat) as int;
                assert(significand * power >= 0x1_0000_0000_0000_0000) by (nonlinear_arith)
                    requires
                        significand >= 0x80_0000,
                        power >= 0x200_0000_0000,
                ;
            }
            return usize::MAX;
        }
        let power = power_of_two(shift);
        proof {
            lemma2_to64_rest();
            if shift < 40 {
                lemma_pow2_strictly_increases(shift as nat, 40);
            }
            assert(significand * power < 0x1_0000_0000_0000_0000) by (nonlinear_arith)
                requires
                    0 <= significand < 0x100_0000,
                    0 <= power <= 0x100_0000_0000,
            ;
        }
        let whole: u64 = significand * power;
        if whole > usize::MAX as u64 {
            usize::MAX
        } else {
            whole as usize
        }
    } else {
        let shift: u64 = (LEVEL_EXPONENT - exponent) as u64;
        if shift >= 26 {
            proof {
                lemma2_to64();
                if shift > 26 {
                    lemma_pow2_strictly_increases(26, shift as nat);
                }
                let unit = pow2(shift as nat) as int;
                assert((2 * significand + unit) / (2 * unit) == 0) by (nonlinear_arith)
                    requires
                        0 <= 2 * significand < unit,
                ;
            }
            return 0;
        }
        let unit = power_of_two(shift);
        proof {
            lemma2_to64();
            if shift < 25 {
                lemma_pow2_strictly_increases(shift as nat, 25);
            }
            assert(0 <= (2 * significand + unit) / (2 * unit) <= 2 * significand + unit)
                by (nonlinear_arith)
                requires
                    0 <= significand,
                    0 < unit,
            ;
        }
        ((2 * significand + unit) / (2 * unit)) as usize
    }
}

/// A channel value between 0 and 1 has a level that is a byte: a pattern
/// that is at most that of the number 1 stands for such a value.
pub proof fn lemma_unit_value_gives_byte(bits: u64)
    requires
        bits <= 0x3ff0_0000_0000_0000,
    ensures
        channel_level(bits) <= 255,
{
    let exponent = exponent_field(bits);
    let fraction = fraction_field(bits);
    if 0 < exponent {
        let product = 255 * (0x10_0000_0000_0000 + fraction);
        let scaled = scaled_significand(fraction);
        let divisor = pow2((1075 - exponent) as nat) as int;
        lemma2_to64_rest();
        if exponent == 1023 {
            assert(fraction == 0);
            assert(scaled == 0xff0_0000_0000_0000);
        } else {
            assert(scaled <= 0x1fe0_0000_0000_0000);
            if exponent < 1022 {
                lemma_pow2_strictly_increases(53, (1075 - exponent) as nat);
            }
            lemma_div_is_ordered_by_denominator(scaled, 0x20_0000_0000_0000, divisor);
        }
    }
}

} // verus!
