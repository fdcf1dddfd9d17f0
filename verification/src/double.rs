//! Whole numbers out of a caller's numbers.
//!
//! A caller's number is a double-precision floating-point number. Here it is its 64 bits: one for
//! the sign, eleven for the exponent, fifty-two for the fraction.

use vstd::arithmetic::div_mod::{lemma_div_by_multiple, lemma_div_multiples_vanish_quotient};
use vstd::arithmetic::mul::{lemma_mul_inequality, lemma_mul_is_associative};
use vstd::arithmetic::power2::{
    lemma2_to64, lemma2_to64_rest, lemma_pow2_adds, lemma_pow2_pos, lemma_pow2_strictly_increases,
    pow2,
};
use vstd::bits::{lemma_u64_shl_is_mul, lemma_u64_shr_is_div};
use vstd::prelude::*;

verus! {

/// The number is negative, or the negative zero.
pub open spec fn negative(bits: u64) -> bool {
    bits / 0x8000_0000_0000_0000 == 1
}

/// The exponent field.
pub open spec fn exponent(bits: u64) -> int {
    ((bits / 0x10_0000_0000_0000) % 0x800) as int
}

/// The fraction field.
pub open spec fn fraction(bits: u64) -> int {
    (bits % 0x10_0000_0000_0000) as int
}

/// The number is neither infinite nor no number.
pub open spec fn finite(bits: u64) -> bool {
    exponent(bits) != 0x7ff
}

/// The size of a finite number, in units of the smallest positive one, which is 2 to the power of
/// -1074.
pub open spec fn magnitude(bits: u64) -> int {
    if exponent(bits) == 0 {
        fraction(bits)
    } else {
        (0x10_0000_0000_0000 + fraction(bits)) * pow2((exponent(bits) - 1) as nat)
    }
}

/// The number 1, in the same units.
pub open spec fn one() -> int {
    pow2(1074) as int
}

/// The whole part of a finite number that is at least 1, or the largest `u64` where that is less.
/// Any other number stands for nothing.
pub open spec fn whole_part(bits: u64) -> Option<u64> {
    if finite(bits) && !negative(bits) && magnitude(bits) >= one() {
        Some(
            if magnitude(bits) / one() <= u64::MAX {
                (magnitude(bits) / one()) as u64
            } else {
                u64::MAX
            },
        )
    } else {
        None
    }
}

/// A number with a small exponent field is less than 1.
proof fn lemma_less_than_one(bits: u64)
    requires
        exponent(bits) < 1023,
    ensures
        magnitude(bits) < one(),
{
    lemma2_to64_rest();
    if exponent(bits) == 0 {
        lemma_pow2_strictly_increases(52, 1074);
    } else {
        let e = (exponent(bits) - 1) as nat;
        lemma_pow2_pos(e);
        lemma_pow2_adds(53, e);
        assert((0x10_0000_0000_0000 + fraction(bits)) * pow2(e) < pow2(53) * pow2(e))
            by (nonlinear_arith)
            requires
                0x10_0000_0000_0000 + fraction(bits) < pow2(53),
                pow2(e) > 0,
        ;
        if e + 53 < 1074 {
            lemma_pow2_strictly_increases((53 + e) as nat, 1074);
        }
    }
}

/// The whole part of a number whose fraction field does not reach below 1.
proof fn lemma_shifted_up(bits: u64)
    requires
        exponent(bits) >= 1075,
    ensures
        magnitude(bits) >= one(),
        magnitude(bits) / one() == (0x10_0000_0000_0000 + fraction(bits)) * pow2(
            (exponent(bits) - 1075) as nat,
        ),
{
    let s = 0x10_0000_0000_0000 + fraction(bits);
    let up = (exponent(bits) - 1075) as nat;
    lemma_pow2_adds(up, 1074);
    lemma_pow2_pos(up);
    lemma_pow2_pos(1074);
    lemma_mul_is_associative(s, pow2(up) as int, pow2(1074) as int);
    assert(s * pow2(up) >= 1) by (nonlinear_arith)
        requires
            s >= 1,
            pow2(up) >= 1,
    ;
    lemma_div_by_multiple(s * pow2(up), one());
    lemma_mul_inequality(1, s * pow2(up), one());
}

/// The whole part of a number that is at least 1 and has bits below 1.
proof fn lemma_shifted_down(bits: u64)
    requires
        1023 <= exponent(bits) < 1075,
    ensures
        magnitude(bits) >= one(),
        magnitude(bits) / one() == (0x10_0000_0000_0000 + fraction(bits)) / (pow2(
            (1075 - exponent(bits)) as nat,
        ) as int),
{
    let s = 0x10_0000_0000_0000 + fraction(bits);
    let e = (exponent(bits) - 1) as nat;
    let down = (1075 - exponent(bits)) as nat;
    lemma2_to64_rest();
    lemma_pow2_adds(e, down);
    lemma_pow2_pos(e);
    lemma_pow2_pos(down);
    lemma_div_multiples_vanish_quotient(pow2(e) as int, s, pow2(down) as int);
    assert(s * pow2(e) == pow2(e) * s) by (nonlinear_arith);
    if down < 52 {
        lemma_pow2_strictly_increases(down, 52);
    }
    lemma_mul_inequality(pow2(down) as int, s, pow2(e) as int);
    assert(pow2(down) * pow2(e) == pow2(e) * pow2(down)) by (nonlinear_arith);
}

/// The whole part of a number that is finite and at least 1; a number past the largest `u64`
/// counts as that.
pub fn whole_number(bits: u64) -> (whole: Option<u64>)
    ensures
        whole == whole_part(bits),
{
    let exp: u64 = (bits / 0x10_0000_0000_0000) % 0x800;
    let significand: u64 = 0x10_0000_0000_0000 + bits % 0x10_0000_0000_0000;
    if bits / 0x8000_0000_0000_0000 == 1 || exp == 0x7ff {
        None
    } else if exp < 1023 {
        proof {
            lemma_less_than_one(bits);
        }
        None
    } else if exp < 1075 {
        let down: u64 = 1075 - exp;
        proof {
            lemma_shifted_down(bits);
            lemma_u64_shr_is_div(significand, down);
            lemma_pow2_pos(down as nat);
            assert(significand as int / pow2(down as nat) as int <= significand)
                by (nonlinear_arith)
                requires
                    significand >= 0,
                    pow2(down as nat) >= 1,
            ;
        }
        Some(significand >> down)
    } else if exp <= 1086 {
        let up: u64 = exp - 1075;
        proof {
            lemma_shifted_up(bits);
            lemma2_to64();
            assert(pow2(up as nat) <= 0x800) by {
                if up < 11 {
                    lemma_pow2_strictly_increases(up as nat, 11);
                }
            }
            assert(significand * pow2(up as nat) <= u64::MAX) by (nonlinear_arith)
                requires
                    significand < 0x20_0000_0000_0000,
                    0 <= pow2(up as nat) <= 0x800,
            ;
            lemma_u64_shl_is_mul(significand, up);
        }
        Some(significand << up)
    } else {
        proof {
            lemma_shifted_up(bits);
            lemma2_to64();
            let up = (exp - 1075) as nat;
            assert(pow2(up) >= 0x1000) by {
                if up > 12 {
                    lemma_pow2_strictly_increases(12, up);
                }
            }
            assert(significand * pow2(up) > u64::MAX) by (nonlinear_arith)
                requires
                    significand >= 0x10_0000_0000_0000,
                    pow2(up) >= 0x1000,
            ;
        }
        Some(u64::MAX)
    }
}

/// What the bits of a positive number mean: with the exponent field 1023 + `e` and the fraction
/// field `f`, the number is 2 to the power of `e` times 1 + `f` / 2 to the power of 52. Its whole
/// part is that, rounded down, or the largest `u64` where that is less.
pub proof fn a_number_is_its_fraction_scaled(e: nat, f: nat)
    requires
        e <= 1023,
        f < 0x10_0000_0000_0000,
    ensures
        ({
            let bits = ((1023 + e) * 0x10_0000_0000_0000 + f) as u64;
            let whole = (0x10_0000_0000_0000 + f) * pow2(e) / 0x10_0000_0000_0000;
            whole_part(bits) == Some(
                if whole <= u64::MAX {
                    whole as u64
                } else {
                    u64::MAX
                },
            )
        }),
{
    let wide = (1023 + e) * 0x10_0000_0000_0000 + f;
    let bits = wide as u64;
    let s = (0x10_0000_0000_0000 + f) as int;
    assert(wide <= u64::MAX);
    assert(bits == wide);
    assert(exponent(bits) == 1023 + e);
    assert(fraction(bits) == f);
    lemma2_to64_rest();
    lemma_pow2_pos(e);
    if e < 52 {
        lemma_shifted_down(bits);
        let down = (52 - e) as nat;
        lemma_pow2_adds(e, down);
        lemma_pow2_pos(down);
        lemma_div_multiples_vanish_quotient(pow2(e) as int, s, pow2(down) as int);
        assert(pow2(e) * s == s * pow2(e)) by (nonlinear_arith);
        assert(s / (pow2(down) as int) <= s) by (nonlinear_arith)
            requires
                s >= 0,
                pow2(down) >= 1,
        ;
    } else {
        lemma_shifted_up(bits);
        let up = (e - 52) as nat;
        lemma_pow2_adds(up, 52);
        lemma_mul_is_associative(s, pow2(up) as int, pow2(52) as int);
        lemma_div_by_multiple(s * pow2(up), pow2(52) as int);
    }
}

/// A number below 1, a negative one, an infinite one and what is no number stand for nothing.
pub proof fn no_other_number_has_a_whole_part(bits: u64)
    ensures
        whole_part(bits) is Some <==> 0x3ff0_0000_0000_0000 <= bits < 0x7ff0_0000_0000_0000,
{
    if exponent(bits) < 1023 {
        lemma_less_than_one(bits);
    } else if exponent(bits) < 1075 {
        lemma_shifted_down(bits);
    } else {
        lemma_shifted_up(bits);
    }
}

} // verus!
