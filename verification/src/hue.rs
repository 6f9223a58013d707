//! Wrapping a hue into one turn of the colour circle.
//!
//! A finite pattern stands for a whole number of units of two to the power
//! of -149, with its sign. The remainder of a division of two such numbers is
//! again a whole number of units and needs no rounding, so it can be found
//! with whole numbers alone.

use crate::single::{
    is_finite, is_nan, is_negative, lemma_units_grow, lemma_units_of_fields, magnitude, units,
    HIDDEN_BIT, INFINITY, NOT_A_NUMBER, SIGN,
};
use vstd::arithmetic::div_mod::{
    lemma_fundamental_div_mod_converse, lemma_mod_bound, lemma_mul_mod_noop_left, lemma_small_mod,
    lemma_truncate_middle,
};
use vstd::arithmetic::power2::{
    lemma2_to64, lemma_pow2_adds, lemma_pow2_pos, lemma_pow2_strictly_increases,
    lemma_pow2_unfold, pow2,
};
use vstd::prelude::*;

verus! {

/// The bit pattern of 360.
pub const THREE_SIXTY: u32 = 0x43B4_0000;

/// The significand of 360, leading bit included: 360 is `TURN` times two to
/// the power of -15.
pub const TURN: u32 = 0xB4_0000;

/// The exponent bits of 360.
pub const TURN_EXPONENT: u32 = 135;

/// `r` is the remainder of the division of `h` by 360, with the sign of `h`:
/// the number with that sign whose size is the size of `h` less the largest
/// multiple of 360 that is not above it. Where `h` is infinite or no number,
/// `r` is no number.
pub open spec fn is_wrapped(h: u32, r: u32) -> bool {
    if is_finite(h) {
        &&& is_finite(r)
        &&& is_negative(r) == is_negative(h)
        &&& units(r) == units(h) % units(THREE_SIXTY)
    } else {
        is_nan(r)
    }
}

/// The size of a number of at least 360, in units, and the size of its
/// remainder: where the significand `a` under the exponent bits `e` leaves
/// `r` after `e - 135` doublings modulo `TURN`.
proof fn lemma_remainder_in_units(h: u32, a: u32, e: u32, r: u32)
    requires
        is_finite(h),
        magnitude(h) >= THREE_SIXTY,
        e == magnitude(h) / HIDDEN_BIT,
        a == HIDDEN_BIT + magnitude(h) % HIDDEN_BIT,
        r as int == (a as int * pow2((e - TURN_EXPONENT) as nat) as int) % (TURN as int),
    ensures
        units(h) % units(THREE_SIXTY) == r as nat * pow2(134),
{
    let n = a as int * pow2((e - TURN_EXPONENT) as nat) as int;
    let p = pow2(134) as int;
    lemma_pow2_pos(134);
    lemma_pow2_pos((e - TURN_EXPONENT) as nat);
    lemma_pow2_adds((e - TURN_EXPONENT) as nat, 134);
    assert(units(h) == n * p) by (nonlinear_arith)
        requires
            units(h) == a as nat * pow2((e - 1) as nat),
            pow2((e - 1) as nat) == pow2((e - TURN_EXPONENT) as nat) * pow2(134),
            n == a as int * pow2((e - TURN_EXPONENT) as nat) as int,
            p == pow2(134) as int,
    ;
    assert(units(THREE_SIXTY) == TURN as int * p);
    assert(n >= 0) by (nonlinear_arith)
        requires
            n == a as int * pow2((e - TURN_EXPONENT) as nat) as int,
    ;
    lemma_truncate_middle(n, p, TURN as int);
    assert(p * n == n * p) by (nonlinear_arith);
    assert(p * (TURN as int) == TURN as int * p) by (nonlinear_arith);
    assert(p * (n % (TURN as int)) == r as nat * pow2(134)) by (nonlinear_arith)
        requires
            r as int == n % (TURN as int),
            p == pow2(134) as int,
    ;
}

/// The remainder of the division of a hue by 360, with the sign of the hue.
/// It is found without rounding. A hue that is infinite or no number gives
/// what is no number.
pub fn wrap_hue(h: u32) -> (r: u32)
    ensures
        is_wrapped(h, r),
{
    let negative = h >= SIGN;
    let m = if negative {
        h - SIGN
    } else {
        h
    };
    if m >= INFINITY {
        return NOT_A_NUMBER;
    }
    if m < THREE_SIXTY {
        proof {
            lemma_units_grow(h, THREE_SIXTY);
            lemma_small_mod(units(h), units(THREE_SIXTY));
        }
        return h;
    }
    let e = m / HIDDEN_BIT;
    let a = HIDDEN_BIT + m % HIDDEN_BIT;
    let mut r: u32 = a % TURN;
    let mut j: u32 = TURN_EXPONENT;
    proof {
        lemma2_to64();
        assert(a as int * pow2(0) as int == a as int);
    }
    while j < e
        invariant
            TURN_EXPONENT <= j <= e,
            r < TURN,
            r as int == (a as int * pow2((j - TURN_EXPONENT) as nat) as int) % (TURN as int),
        decreases e - j,
    {
        proof {
            let k = (j - TURN_EXPONENT) as nat;
            let x = a as int * pow2(k) as int;
            lemma_pow2_unfold(k + 1);
            lemma_mul_mod_noop_left(x, 2, TURN as int);
            assert(a as int * pow2(k + 1) as int == x * 2) by (nonlinear_arith)
                requires
                    pow2(k + 1) == 2 * pow2(k),
                    x == a as int * pow2(k) as int,
            ;
        }
        r = (2 * r) % TURN;
        j += 1;
    }
    proof {
        lemma_remainder_in_units(h, a, e, r);
    }
    let sign = if negative {
        SIGN
    } else {
        0
    };
    if r == 0 {
        proof {
            assert(r as nat * pow2(134) == 0) by (nonlinear_arith)
                requires
                    r == 0,
            ;
        }
        return sign;
    }
    let mut q: u32 = r;
    let mut ex: u32 = TURN_EXPONENT;
    while q < HIDDEN_BIT
        invariant
            0 < q < 2 * HIDDEN_BIT,
            1 <= ex <= TURN_EXPONENT,
            q as nat * pow2((ex - 1) as nat) == r as nat * pow2(134),
            q >= pow2((TURN_EXPONENT - ex) as nat),
        decreases ex,
    {
        proof {
            lemma2_to64();
            if ex <= 112 {
                if ex < 112 {
                    lemma_pow2_strictly_increases(23, (TURN_EXPONENT - ex) as nat);
                }
                assert(false);
            }
            lemma_pow2_unfold((ex - 1) as nat);
            lemma_pow2_unfold((TURN_EXPONENT - ex + 1) as nat);
            assert((2 * q) as nat * pow2((ex - 2) as nat) == q as nat * pow2((ex - 1) as nat))
                by (nonlinear_arith)
                requires
                    pow2((ex - 1) as nat) == 2 * pow2((ex - 2) as nat),
            ;
        }
        q = 2 * q;
        ex -= 1;
    }
    let result = sign + (ex * HIDDEN_BIT + (q - HIDDEN_BIT));
    proof {
        let mr = (ex * HIDDEN_BIT + (q - HIDDEN_BIT)) as u32;
        assert(magnitude(result) == mr);
        assert(mr / HIDDEN_BIT == ex && mr % HIDDEN_BIT == q - HIDDEN_BIT) by {
            lemma_fundamental_div_mod_converse(
                mr as int,
                HIDDEN_BIT as int,
                ex as int,
                (q - HIDDEN_BIT) as int,
            );
        }
    }
    result
}

/// The bit pattern of two to the power of -15: the step from 360 to the
/// number before it.
pub const STEP_BELOW_TURN: u32 = 0x3800_0000;

/// `r` is the greatest number that is not above 360 less `p`.
pub open spec fn is_complement(p: u32, r: u32) -> bool {
    &&& r < THREE_SIXTY
    &&& units(r) <= units(THREE_SIXTY) - units(p) < units((r + 1) as u32)
}

/// 360 less a number between zero and 360, rounded down to the next number.
fn complement(p: u32) -> (r: u32)
    requires
        0 < p < THREE_SIXTY,
    ensures
        is_complement(p, r),
{
    let ghost turn = units(THREE_SIXTY);
    let ghost target = (turn - units(p)) as nat;
    proof {
        lemma2_to64();
        lemma_pow2_pos(134);
        lemma_units_grow(p, THREE_SIXTY);
        lemma_units_of_fields(THREE_SIXTY, TURN_EXPONENT, TURN as u64);
        lemma_units_of_fields((THREE_SIXTY - 1) as u32, TURN_EXPONENT, (TURN - 1) as u64);
        if p < THREE_SIXTY - 1 {
            lemma_units_grow(p, (THREE_SIXTY - 1) as u32);
        }
        lemma_units_grow(0, p);
        assert(target >= pow2(134)) by (nonlinear_arith)
            requires
                target == turn - units(p),
                turn == TURN as nat * pow2(134),
                units(p) <= (TURN - 1) as nat * pow2(134),
        ;
    }
    if p <= STEP_BELOW_TURN {
        proof {
            lemma_units_of_fields(STEP_BELOW_TURN, 112, HIDDEN_BIT as u64);
            lemma_pow2_adds(23, 111);
            if p < STEP_BELOW_TURN {
                lemma_units_grow(p, STEP_BELOW_TURN);
            }
            assert((TURN - 1) as nat * pow2(134) <= target) by (nonlinear_arith)
                requires
                    target == turn - units(p),
                    turn == TURN as nat * pow2(134),
                    units(p) <= pow2(134),
            ;
        }
        return THREE_SIXTY - 1;
    }
    let e = p / HIDDEN_BIT;
    let a: u64 = (HIDDEN_BIT + p % HIDDEN_BIT) as u64;
    let mut big: u64 = TURN as u64;
    let mut j: u32 = e;
    while j < TURN_EXPONENT
        invariant
            112 <= e <= j <= TURN_EXPONENT,
            big as nat == TURN as nat * pow2((j - e) as nat),
        decreases TURN_EXPONENT - j,
    {
        proof {
            lemma2_to64();
            let k = (j - e) as nat;
            if k < 22 {
                lemma_pow2_strictly_increases(k, 22);
            }
            lemma_pow2_unfold(k + 1);
            assert(big <= 0xB4_0000 * 0x40_0000 && 2 * big == TURN as nat * pow2(k + 1))
                by (nonlinear_arith)
                requires
                    big as nat == TURN as nat * pow2(k),
                    pow2(k) <= 0x40_0000,
                    pow2(k + 1) == 2 * pow2(k),
                    TURN == 0xB4_0000,
            ;
        }
        big = 2 * big;
        j += 1;
    }
    let ghost low = pow2((e - 1) as nat);
    proof {
        lemma_pow2_pos((e - 1) as nat);
        lemma_pow2_adds((TURN_EXPONENT - e) as nat, (e - 1) as nat);
        assert(units(p) == a as nat * low);
        assert(turn == big as nat * low) by (nonlinear_arith)
            requires
                turn == TURN as nat * pow2(134),
                big as nat == TURN as nat * pow2((TURN_EXPONENT - e) as nat),
                pow2(134) == pow2((TURN_EXPONENT - e) as nat) * low,
        ;
        assert(big > a && target == (big - a) as nat * low) by (nonlinear_arith)
            requires
                turn == big as nat * low,
                units(p) == a as nat * low,
                units(p) < turn,
                target == turn - units(p),
                low > 0,
        ;
    }
    let mut w: u64 = big - a;
    let mut x: u32 = e;
    proof {
        assert(target < (w + 1) as nat * low) by (nonlinear_arith)
            requires
                target == w as nat * low,
                low > 0,
        ;
    }
    if w >= 0x100_0000 {
        while w >= 0x100_0000
            invariant
                1 <= x <= TURN_EXPONENT,
                w >= HIDDEN_BIT,
                w as nat * pow2((x - 1) as nat) <= target < (w + 1) as nat * pow2((x - 1) as nat),
                target < turn,
                turn == TURN as nat * pow2(134),
            decreases w,
        {
            proof {
                lemma_pow2_pos((x - 1) as nat);
                if x >= TURN_EXPONENT {
                    assert(false) by (nonlinear_arith)
                        requires
                            w >= 0x100_0000,
                            w as nat * pow2(134) <= target,
                            target < turn,
                            turn == TURN as nat * pow2(134),
                            TURN == 0xB4_0000,
                    ;
                }
                lemma_pow2_unfold(x as nat);
                let half = (w / 2) as nat;
                assert(half * pow2(x as nat) <= target < (half + 1) * pow2(x as nat))
                    by (nonlinear_arith)
                    requires
                        w as nat * pow2((x - 1) as nat) <= target < (w + 1) as nat * pow2(
                            (x - 1) as nat,
                        ),
                        pow2(x as nat) == 2 * pow2((x - 1) as nat),
                        2 * half <= w,
                        w <= 2 * half + 1,
                ;
            }
            w = w / 2;
            x += 1;
        }
    } else {
        while w < HIDDEN_BIT as u64
            invariant
                1 <= x <= TURN_EXPONENT,
                0 < w < 0x100_0000,
                w as nat * pow2((x - 1) as nat) == target,
                target >= pow2(134),
            decreases x,
        {
            proof {
                lemma2_to64();
                if x <= 112 {
                    if x < 112 {
                        lemma_pow2_strictly_increases((x - 1) as nat, 111);
                    }
                    lemma_pow2_adds(23, 111);
                    lemma_pow2_pos(111);
                    assert(false) by (nonlinear_arith)
                        requires
                            w < 0x80_0000,
                            pow2((x - 1) as nat) <= pow2(111),
                            pow2(111) > 0,
                            w as nat * pow2((x - 1) as nat) >= pow2(134),
                            pow2(134) == 0x80_0000 * pow2(111),
                    ;
                }
                lemma_pow2_unfold((x - 1) as nat);
                assert((2 * w) as nat * pow2((x - 2) as nat) == w as nat * pow2((x - 1) as nat))
                    by (nonlinear_arith)
                    requires
                        pow2((x - 1) as nat) == 2 * pow2((x - 2) as nat),
                ;
            }
            w = 2 * w;
            x -= 1;
        }
        proof {
            lemma_pow2_pos((x - 1) as nat);
            assert(target < (w + 1) as nat * pow2((x - 1) as nat)) by (nonlinear_arith)
                requires
                    target == w as nat * pow2((x - 1) as nat),
                    pow2((x - 1) as nat) > 0,
            ;
        }
    }
    let r: u32 = x * HIDDEN_BIT + (w - HIDDEN_BIT as u64) as u32;
    proof {
        lemma_units_of_fields(r, x, w);
        lemma_pow2_pos((x - 1) as nat);
        if w + 1 < 0x100_0000 {
            lemma_units_of_fields((r + 1) as u32, x, (w + 1) as u64);
        } else {
            lemma_units_of_fields((r + 1) as u32, (x + 1) as u32, HIDDEN_BIT as u64);
            lemma_pow2_unfold(x as nat);
            assert((w + 1) as nat * pow2((x - 1) as nat) == HIDDEN_BIT as nat * pow2(x as nat))
                by (nonlinear_arith)
                requires
                    w + 1 == 0x100_0000,
                    HIDDEN_BIT == 0x80_0000,
                    pow2(x as nat) == 2 * pow2((x - 1) as nat),
            ;
        }
        if r > THREE_SIXTY {
            lemma_units_grow(THREE_SIXTY, r);
        }
    }
    r
}

/// `r` is the hue `h` wrapped into one turn, from zero up to but not
/// including 360. For a hue that is not negative, and for one whose size is a
/// multiple of 360, that is the remainder of the division of its size by 360,
/// which is found without rounding. For every other negative hue it is 360
/// less that remainder, rounded down to the next number, so that it stays
/// below 360. Where `h` is infinite or no number, `r` is no number.
pub open spec fn is_turned(h: u32, r: u32) -> bool {
    if is_finite(h) {
        let rest = units(h) % units(THREE_SIXTY);
        &&& r < THREE_SIXTY
        &&& if !is_negative(h) || rest == 0 {
            units(r) == rest
        } else {
            units(r) <= units(THREE_SIXTY) - rest < units((r + 1) as u32)
        }
    } else {
        is_nan(r)
    }
}

/// Wraps a hue into one turn: from zero up to but not including 360.
pub fn turn_hue(h: u32) -> (r: u32)
    ensures
        is_turned(h, r),
{
    let negative = h >= SIGN;
    let size = if negative {
        h - SIGN
    } else {
        h
    };
    let rest = wrap_hue(size);
    if size >= INFINITY {
        return rest;
    }
    proof {
        lemma_units_of_fields(THREE_SIXTY, TURN_EXPONENT, TURN as u64);
        lemma_pow2_pos(134);
        assert(units(THREE_SIXTY) > 0) by (nonlinear_arith)
            requires
                units(THREE_SIXTY) == TURN as nat * pow2(134),
                pow2(134) > 0,
                TURN == 0xB4_0000,
        ;
        lemma_mod_bound(units(h) as int, units(THREE_SIXTY) as int);
        if rest > THREE_SIXTY {
            lemma_units_grow(THREE_SIXTY, rest);
        }
    }
    if negative && rest != 0 {
        proof {
            if units(rest) == 0 {
                lemma_units_grow(0, rest);
            }
        }
        complement(rest)
    } else {
        rest
    }
}

} // verus!
