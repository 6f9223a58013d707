//! Single-precision numbers as bit patterns.
//!
//! A pattern has a sign bit, eight exponent bits and twenty-three fraction
//! bits. The library never computes with the numbers they stand for; it
//! compares them, and where a result needs no rounding it finds it with whole
//! numbers. A pattern whose exponent bits are all set stands for infinity
//! where its fraction is zero, and for no number otherwise. What is no number
//! compares with nothing. Of the others, a larger magnitude is further from
//! zero on the side of its sign, and the two zeros are equal.

use vstd::arithmetic::div_mod::lemma_fundamental_div_mod_converse;
use vstd::arithmetic::mul::lemma_mul_strict_inequality;
use vstd::arithmetic::power2::{
    lemma_pow2_pos, lemma_pow2_strictly_increases, lemma_pow2_unfold, pow2,
};
use vstd::prelude::*;

verus! {

/// The bit pattern of zero.
pub const ZERO: u32 = 0;

/// The bit pattern of one.
pub const ONE: u32 = 0x3F80_0000;

/// The sign bit.
pub const SIGN: u32 = 0x8000_0000;

/// The bit pattern of positive infinity.
pub const INFINITY: u32 = 0x7F80_0000;

/// The sign bit of `bits` is set.
pub open spec fn is_negative(bits: u32) -> bool {
    bits >= SIGN
}

/// `bits` without its sign bit.
pub open spec fn magnitude(bits: u32) -> u32 {
    if bits >= SIGN {
        (bits - SIGN) as u32
    } else {
        bits
    }
}

/// `bits` stands for no number.
pub open spec fn is_nan(bits: u32) -> bool {
    magnitude(bits) > INFINITY
}

/// Where the number that `bits` stands for lies among the numbers: patterns of
/// numbers are in the order of their ranks, and stand for the same number
/// where their ranks are equal.
pub open spec fn rank(bits: u32) -> int {
    if is_negative(bits) {
        -(magnitude(bits) as int)
    } else {
        magnitude(bits) as int
    }
}

/// The number of `a` is less than the number of `b`. Nothing is less than what
/// is no number, and that is less than nothing.
pub open spec fn is_less(a: u32, b: u32) -> bool {
    !is_nan(a) && !is_nan(b) && rank(a) < rank(b)
}

/// Whether the number of `a` is less than the number of `b`.
pub fn less(a: u32, b: u32) -> (r: bool)
    ensures
        r == is_less(a, b),
{
    let ma = if a >= SIGN {
        a - SIGN
    } else {
        a
    };
    let mb = if b >= SIGN {
        b - SIGN
    } else {
        b
    };
    if ma > INFINITY || mb > INFINITY {
        false
    } else if a >= SIGN {
        if b >= SIGN {
            ma > mb
        } else {
            ma > 0 || mb > 0
        }
    } else {
        b < SIGN && ma < mb
    }
}

/// The numbers of `a` and `b` are equal. What is no number equals nothing.
pub open spec fn is_equal(a: u32, b: u32) -> bool {
    !is_nan(a) && !is_nan(b) && rank(a) == rank(b)
}

/// Whether the numbers of `a` and `b` are equal.
pub fn equal(a: u32, b: u32) -> (r: bool)
    ensures
        r == is_equal(a, b),
{
    !less(a, b) && !less(b, a) && !nan(a) && !nan(b)
}

/// Whether `bits` stands for no number.
pub fn nan(bits: u32) -> (r: bool)
    ensures
        r == is_nan(bits),
{
    if bits >= SIGN {
        bits - SIGN > INFINITY
    } else {
        bits > INFINITY
    }
}

/// The bit pattern that is handed out for what is no number.
pub const NOT_A_NUMBER: u32 = 0x7FC0_0000;

/// Two to the power of 23: the weight of the exponent's lowest bit, and the
/// leading bit of the significand that a pattern with an exponent leaves out.
pub const HIDDEN_BIT: u32 = 0x80_0000;

/// `bits` stands for a number that is not infinite.
pub open spec fn is_finite(bits: u32) -> bool {
    magnitude(bits) < INFINITY
}

/// The size, sign apart, of the number that the finite pattern `bits` stands
/// for, in units of two to the power of -149: the fraction bits where the
/// exponent bits are zero, and otherwise the fraction bits under a leading
/// one, doubled once for every step of the exponent above one.
pub open spec fn units(bits: u32) -> nat {
    let m = magnitude(bits);
    if m < HIDDEN_BIT {
        m as nat
    } else {
        (HIDDEN_BIT + m % HIDDEN_BIT) as nat * pow2((m / HIDDEN_BIT - 1) as nat)
    }
}

/// Of two finite patterns, that of the smaller magnitude stands for the
/// smaller size.
pub proof fn lemma_units_grow(a: u32, b: u32)
    requires
        magnitude(a) < magnitude(b),
        is_finite(b),
    ensures
        units(a) < units(b),
{
    let ma = magnitude(a);
    let mb = magnitude(b);
    let ea = (ma / HIDDEN_BIT) as nat;
    let eb = (mb / HIDDEN_BIT) as nat;
    let fa = (HIDDEN_BIT + ma % HIDDEN_BIT) as nat;
    let fb = (HIDDEN_BIT + mb % HIDDEN_BIT) as nat;
    if mb >= HIDDEN_BIT {
        let pb = pow2((eb - 1) as nat);
        lemma_pow2_pos((eb - 1) as nat);
        if ma < HIDDEN_BIT {
            assert(units(a) < fb * pb) by (nonlinear_arith)
                requires
                    units(a) < HIDDEN_BIT,
                    fb >= HIDDEN_BIT,
                    pb >= 1,
            ;
        } else if ea == eb {
            lemma_mul_strict_inequality(fa as int, fb as int, pb as int);
        } else {
            let pa = pow2((ea - 1) as nat);
            lemma_pow2_pos((ea - 1) as nat);
            lemma_pow2_unfold(ea);
            if ea < eb - 1 {
                lemma_pow2_strictly_increases(ea, (eb - 1) as nat);
            }
            assert(fa * pa < fb * pb) by (nonlinear_arith)
                requires
                    fa < 2 * HIDDEN_BIT,
                    fb >= HIDDEN_BIT,
                    pa >= 1,
                    2 * pa <= pb,
            ;
        }
    }
}

/// The size of a pattern with the exponent bits `x`, not zero, under the
/// significand `w`.
pub proof fn lemma_units_of_fields(bits: u32, x: u32, w: u64)
    requires
        1 <= x <= 254,
        HIDDEN_BIT <= w < 2 * HIDDEN_BIT,
        bits == x * HIDDEN_BIT + (w - HIDDEN_BIT),
    ensures
        is_finite(bits),
        !is_negative(bits),
        units(bits) == w as nat * pow2((x - 1) as nat),
{
    lemma_fundamental_div_mod_converse(
        bits as int,
        HIDDEN_BIT as int,
        x as int,
        (w - HIDDEN_BIT) as int,
    );
}

/// The number that the finite pattern `bits` stands for, in units of two to
/// the power of -149.
pub open spec fn value_in_units(bits: u32) -> int {
    if is_negative(bits) {
        -(units(bits) as int)
    } else {
        units(bits) as int
    }
}

/// The order of the patterns is the order of the numbers: a finite pattern is
/// less than another exactly where it stands for fewer units, and equals it
/// exactly where it stands for as many.
pub proof fn lemma_order_is_numeric(a: u32, b: u32)
    requires
        is_finite(a),
        is_finite(b),
    ensures
        is_less(a, b) <==> value_in_units(a) < value_in_units(b),
        is_equal(a, b) <==> value_in_units(a) == value_in_units(b),
{
    if magnitude(a) < magnitude(b) {
        lemma_units_grow(a, b);
    } else if magnitude(b) < magnitude(a) {
        lemma_units_grow(b, a);
    }
    if magnitude(a) > 0 {
        lemma_units_grow(0, a);
    }
    if magnitude(b) > 0 {
        lemma_units_grow(0, b);
    }
}

/// Whether `bits` stands for a number that is not infinite.
pub fn finite(bits: u32) -> (r: bool)
    ensures
        r == is_finite(bits),
{
    if bits >= SIGN {
        bits - SIGN < INFINITY
    } else {
        bits < INFINITY
    }
}

} // verus!
