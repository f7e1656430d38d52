//! Rounding to IEEE 754 binary64, done exactly on integers.
//!
//! A binary64 value `x >= 1` in the binade `2^e <= x < 2^(e+1)` is `m * 2^(e-52)`
//! for an integer significand `2^52 <= m < 2^53`, so `x * 2^52 = m * 2^e` is an
//! integer. This module describes such values by that integer, and rounds a
//! positive rational `num / den` to the nearest of them, ties going to the even
//! significand, which is what a binary64 division or multiplication of exactly
//! representable operands returns.

use vstd::arithmetic::div_mod::*;
use vstd::arithmetic::mul::*;
use vstd::arithmetic::power2::*;
use vstd::prelude::*;

verus! {

/// `2^52`: the weight of the leading bit of a binary64 significand.
pub const TWO_52: u128 = 0x10_0000_0000_0000;

/// `2^75`: the operands of [`round_binary64`] stay below this.
pub const TWO_75: u128 = 0x800_0000_0000_0000_0000;

/// The integer nearest to `num / den`; of two equally near, the even one.
pub open spec fn spec_round_half_even(num: nat, den: nat) -> nat
    recommends
        den > 0,
{
    let q = num / den;
    let r = num % den;
    if 2 * r < den || (2 * r == den && q % 2 == 0) {
        q
    } else {
        q + 1
    }
}

/// The exponent `e` of the binade of `x >= 1`: `2^e <= x < 2^(e+1)`.
pub open spec fn spec_floor_log2(x: nat) -> nat
    decreases x,
{
    if x <= 1 {
        0
    } else {
        1 + spec_floor_log2(x / 2)
    }
}

/// The binary64 value nearest to `num / den >= 1`, ties to even, times `2^52`.
///
/// With `e` the exponent of the binade of `num / den`, the binary64 values of
/// that binade are the multiples of `2^(e-52)`, so the significand of the
/// result is `num / den / 2^(e-52)` rounded to an integer.
pub open spec fn spec_round_binary64(num: nat, den: nat) -> nat
    recommends
        0 < den <= num,
{
    let e = spec_floor_log2(num / den);
    spec_round_half_even(num * pow2(52), den * pow2(e)) * pow2(e)
}

/// The concrete values of the powers of two that this crate names.
pub proof fn lemma_pow2_values()
    ensures
        pow2(0) == 1,
        pow2(31) == 0x8000_0000,
        pow2(32) == 0x1_0000_0000,
        pow2(33) == 0x2_0000_0000,
        pow2(52) == TWO_52,
        pow2(53) == 2 * TWO_52,
        pow2(63) == 0x8000_0000_0000_0000,
        pow2(64) == 0x1_0000_0000_0000_0000,
        pow2(75) == TWO_75,
        pow2(83) == 0x8_0000_0000_0000_0000_0000,
{
    lemma2_to64();
    lemma2_to64_rest();
    lemma_pow2_adds(52, 23);
    lemma_pow2_adds(52, 31);
}

/// `spec_floor_log2(x)` is the exponent of the binade of `x`.
pub proof fn lemma_floor_log2_bounds(x: nat)
    requires
        x >= 1,
    ensures
        pow2(spec_floor_log2(x)) <= x < 2 * pow2(spec_floor_log2(x)),
    decreases x,
{
    if x <= 1 {
        lemma2_to64();
    } else {
        lemma_floor_log2_bounds(x / 2);
        lemma_pow2_unfold(spec_floor_log2(x));
    }
}

/// Only one exponent has `x` in its binade.
pub proof fn lemma_floor_log2_unique(x: nat, e: nat)
    requires
        pow2(e) <= x < 2 * pow2(e),
    ensures
        spec_floor_log2(x) == e,
    decreases e,
{
    if e == 0 {
        lemma2_to64();
    } else {
        lemma_pow2_unfold(e);
        lemma_pow2_pos((e - 1) as nat);
        lemma_floor_log2_unique(x / 2, (e - 1) as nat);
    }
}

/// Powers of two are ordered as their exponents are.
pub proof fn lemma_pow2_le(a: nat, b: nat)
    ensures
        a <= b <==> pow2(a) <= pow2(b),
{
    if a < b {
        lemma_pow2_strictly_increases(a, b);
    }
    if b < a {
        lemma_pow2_strictly_increases(b, a);
    }
}

/// Rounding to the nearest integer stays between any two integers that bound
/// the quotient.
pub proof fn lemma_round_half_even_between(num: nat, den: nat, lo: nat, hi: nat)
    requires
        den > 0,
        lo * den <= num <= hi * den,
    ensures
        lo <= spec_round_half_even(num, den) <= hi,
{
    let q = num / den;
    let r = num % den;
    lemma_fundamental_div_mod(num as int, den as int);
    lemma_mod_bound(num as int, den as int);
    assert(lo <= q) by (nonlinear_arith)
        requires
            den > 0,
            lo * den <= num,
            num == den * q + r,
            r < den,
    ;
    assert(q <= hi && (r > 0 ==> q + 1 <= hi)) by (nonlinear_arith)
        requires
            den > 0,
            num <= hi * den,
            num == den * q + r,
            0 <= r,
    ;
}

/// The rounded integer is within half a unit of the quotient, and is even when
/// it is exactly half a unit away.
pub proof fn lemma_round_half_even_nearest(num: nat, den: nat)
    requires
        den > 0,
    ensures
        ({
            let m = spec_round_half_even(num, den);
            &&& 2 * (num - m * den) <= den
            &&& 2 * (m * den - num) <= den
            &&& (2 * (num - m * den) == den || 2 * (m * den - num) == den) ==> m % 2 == 0
        }),
{
    let q = num / den;
    let r = num % den;
    let m = spec_round_half_even(num, den);
    lemma_fundamental_div_mod(num as int, den as int);
    lemma_mod_bound(num as int, den as int);
    assert(m * den == den * q + (m - q) * den) by (nonlinear_arith);
    assert((m - q) * den == if m == q { 0 } else { den as int }) by (nonlinear_arith)
        requires
            m == q || m == q + 1,
    ;
}

/// Only one integer is as near to the quotient as [`lemma_round_half_even_nearest`]
/// says, so that lemma says all there is to say of [`spec_round_half_even`].
pub proof fn lemma_round_half_even_unique(num: nat, den: nat, m: nat)
    requires
        den > 0,
        2 * (num - m * den) <= den,
        2 * (m * den - num) <= den,
        (2 * (num - m * den) == den || 2 * (m * den - num) == den) ==> m % 2 == 0,
    ensures
        m == spec_round_half_even(num, den),
{
    let q = num / den;
    let r = num % den;
    lemma_fundamental_div_mod(num as int, den as int);
    lemma_mod_bound(num as int, den as int);
    assert(m == q || m == q + 1) by (nonlinear_arith)
        requires
            den > 0,
            num == den * q + r,
            0 <= r < den,
            2 * (num - m * den) <= den,
            2 * (m * den - num) <= den,
    ;
    assert(m * den == den * q + (m - q) * den) by (nonlinear_arith);
    assert((m - q) * den == if m == q { 0 } else { den as int }) by (nonlinear_arith)
        requires
            m == q || m == q + 1,
    ;
}

/// A common factor of numerator and denominator does not change the rounding.
pub proof fn lemma_round_half_even_scale(num: nat, den: nat, k: nat)
    requires
        den > 0,
        k > 0,
    ensures
        spec_round_half_even(num * k, den * k) == spec_round_half_even(num, den),
{
    let r = num % den;
    lemma_div_multiples_vanish_quotient(k as int, num as int, den as int);
    lemma_truncate_middle(num as int, k as int, den as int);
    lemma_mul_is_commutative(num as int, k as int);
    lemma_mul_is_commutative(den as int, k as int);
    assert((num * k) / (den * k) == num / den);
    assert((num * k) % (den * k) == k * r);
    assert((2 * (k * r) < den * k <==> 2 * r < den) && (2 * (k * r) == den * k <==> 2 * r == den))
        by (nonlinear_arith)
        requires
            k > 0,
    ;
}

/// The significand that [`spec_round_binary64`] rounds to lies in `[2^52, 2^53]`,
/// where `2^53` stands for the first value of the next binade.
pub proof fn lemma_significand_bounds(num: nat, den: nat)
    requires
        0 < den <= num,
    ensures
        ({
            let p = pow2(spec_floor_log2(num / den));
            let m = spec_round_half_even(num * pow2(52), den * p);
            &&& p * den <= num < 2 * p * den
            &&& pow2(52) <= m <= pow2(53)
            &&& spec_round_binary64(num, den) == m * p
        }),
{
    let t = num / den;
    let p = pow2(spec_floor_log2(t));
    lemma_fundamental_div_mod(num as int, den as int);
    lemma_mod_bound(num as int, den as int);
    assert(t >= 1) by (nonlinear_arith)
        requires
            0 < den <= num,
            num == den * t + num % den,
            num % den < den,
    ;
    lemma_floor_log2_bounds(t);
    assert(p * den <= num < 2 * p * den) by (nonlinear_arith)
        requires
            0 < den,
            p <= t < 2 * p,
            num == den * t + num % den,
            0 <= num % den < den,
    ;
    lemma_pow2_unfold(53);
    assert(pow2(52) * (den * p) <= num * pow2(52) <= pow2(53) * (den * p)) by (nonlinear_arith)
        requires
            p * den <= num < 2 * p * den,
            pow2(53) == 2 * pow2(52),
    ;
    assert(den * p > 0) by (nonlinear_arith)
        requires
            den > 0,
            p > 0,
    ;
    lemma_round_half_even_between(num * pow2(52), den * p, pow2(52), pow2(53));
}

/// The rounded value is within half a unit in the last place of the quotient,
/// and has an even significand when it is exactly half a unit away. In the
/// binade of exponent `e` that unit is `2^(e-52)`, which is `2^e` once values
/// are scaled by `2^52`.
pub proof fn lemma_round_binary64_nearest(num: nat, den: nat)
    requires
        0 < den <= num,
    ensures
        ({
            let p = pow2(spec_floor_log2(num / den));
            let m = spec_round_half_even(num * pow2(52), den * p);
            let error = num * pow2(52) - spec_round_binary64(num, den) * den;
            &&& -(den * p) <= 2 * error <= den * p
            &&& (2 * error == den * p || 2 * error == -(den * p)) ==> m % 2 == 0
        }),
{
    let p = pow2(spec_floor_log2(num / den));
    let m = spec_round_half_even(num * pow2(52), den * p);
    lemma_significand_bounds(num, den);
    assert(den * p > 0) by (nonlinear_arith)
        requires
            den > 0,
            p > 0,
    ;
    lemma_round_half_even_nearest(num * pow2(52), den * p);
    assert(m * (den * p) == (m * p) * den) by (nonlinear_arith);
}

/// Rounding is monotone and exact on integers below `2^53`: a quotient that is
/// at least such an integer rounds to at least that integer.
pub proof fn lemma_round_binary64_lower(num: nat, den: nat, lo: nat)
    requires
        0 < den,
        1 <= lo < pow2(53),
        lo * den <= num,
    ensures
        lo * pow2(52) <= spec_round_binary64(num, den),
{
    assert(den <= num) by (nonlinear_arith)
        requires
            0 < den,
            1 <= lo,
            lo * den <= num,
    ;
    let e = spec_floor_log2(num / den);
    let p = pow2(e);
    let m = spec_round_half_even(num * pow2(52), den * p);
    lemma_significand_bounds(num, den);
    lemma_pow2_unfold(53);
    if lo < p {
        assert(lo * pow2(52) <= m * p) by (nonlinear_arith)
            requires
                lo < p,
                pow2(52) <= m,
        ;
    } else {
        lemma_pow2_le(53, e);
        let s = pow2((52 - e) as nat);
        lemma_pow2_adds((52 - e) as nat, e);
        lemma_pow2_pos((52 - e) as nat);
        assert((lo * s) * (den * p) <= num * pow2(52) <= pow2(53) * (den * p))
            by (nonlinear_arith)
            requires
                lo * den <= num < 2 * p * den,
                pow2(52) == s * p,
                pow2(53) == 2 * pow2(52),
                s > 0,
                p > 0,
        ;
        assert(den * p > 0) by (nonlinear_arith)
            requires
                den > 0,
                p > 0,
        ;
        lemma_round_half_even_between(num * pow2(52), den * p, lo * s, pow2(53));
        assert(lo * pow2(52) <= m * p) by (nonlinear_arith)
            requires
                lo * s <= m,
                pow2(52) == s * p,
        ;
    }
}

/// Rounding is monotone and exact on integers below `2^53`: a quotient that is
/// at most such an integer rounds to at most that integer.
pub proof fn lemma_round_binary64_upper(num: nat, den: nat, hi: nat)
    requires
        0 < den <= num,
        hi < pow2(53),
        num <= hi * den,
    ensures
        spec_round_binary64(num, den) <= hi * pow2(52),
{
    let e = spec_floor_log2(num / den);
    let p = pow2(e);
    let m = spec_round_half_even(num * pow2(52), den * p);
    lemma_significand_bounds(num, den);
    lemma_pow2_unfold(53);
    assert(p <= hi) by (nonlinear_arith)
        requires
            0 < den,
            p * den <= num <= hi * den,
    ;
    if 2 * p <= hi {
        assert(m * p <= hi * pow2(52)) by (nonlinear_arith)
            requires
                2 * p <= hi,
                m <= pow2(53),
                pow2(53) == 2 * pow2(52),
        ;
    } else {
        lemma_pow2_le(53, e);
        let s = pow2((52 - e) as nat);
        lemma_pow2_adds((52 - e) as nat, e);
        lemma_pow2_pos((52 - e) as nat);
        assert(pow2(52) * (den * p) <= num * pow2(52) <= (hi * s) * (den * p))
            by (nonlinear_arith)
            requires
                p * den <= num <= hi * den,
                pow2(52) == s * p,
                s > 0,
                p > 0,
        ;
        assert(den * p > 0) by (nonlinear_arith)
            requires
                den > 0,
                p > 0,
        ;
        lemma_round_half_even_between(num * pow2(52), den * p, pow2(52), hi * s);
        assert(m * p <= hi * pow2(52)) by (nonlinear_arith)
            requires
                m <= hi * s,
                pow2(52) == s * p,
        ;
    }
}

/// Rounding leaves an integer below `2^53` as it is.
pub proof fn lemma_round_binary64_exact(value: nat, den: nat)
    requires
        0 < den,
        1 <= value < pow2(53),
    ensures
        spec_round_binary64(value * den, den) == value * pow2(52),
{
    assert(den <= value * den) by (nonlinear_arith)
        requires
            0 < den,
            1 <= value,
    ;
    lemma_round_binary64_lower(value * den, den, value);
    lemma_round_binary64_upper(value * den, den, value);
}

/// Computes [`spec_round_half_even`].
pub fn round_half_even(num: u128, den: u128) -> (m: u128)
    requires
        den > 0,
    ensures
        m == spec_round_half_even(num as nat, den as nat),
{
    let q: u128 = num / den;
    let r: u128 = num % den;
    let gap: u128 = den - r;
    if r < gap || (r == gap && q % 2 == 0) {
        q
    } else {
        proof {
            // The remainder is not zero, so the denominator is at least 2.
            lemma_div_is_ordered_by_denominator(num as int, 2, den as int);
        }
        q + 1
    }
}

/// The largest power of two that is not above `x`.
pub fn leading_power(x: u128) -> (p: u128)
    requires
        x >= 1,
    ensures
        p == pow2(spec_floor_log2(x as nat)),
        p <= x < 2 * p,
{
    let mut p: u128 = 1;
    let ghost mut e: nat = 0;
    proof {
        lemma_pow2_values();
    }
    while x / 2 >= p
        invariant
            p == pow2(e),
            1 <= p <= x,
        decreases x - p,
    {
        proof {
            lemma_pow2_unfold(e + 1);
        }
        p = p * 2;
        proof {
            e = e + 1;
        }
    }
    proof {
        lemma_floor_log2_unique(x as nat, e);
    }
    p
}

/// Rounds `num / den` as a binary64 division of two exactly representable
/// operands does, and returns the result times `2^52`.
pub fn round_binary64(num: u128, den: u128) -> (r: u128)
    requires
        0 < den < TWO_75,
        den <= num,
        num / den < TWO_75,
    ensures
        r == spec_round_binary64(num as nat, den as nat),
{
    let t: u128 = num / den;
    proof {
        lemma_pow2_values();
        lemma_significand_bounds(num as nat, den as nat);
        lemma_fundamental_div_mod(num as int, den as int);
        lemma_mod_bound(num as int, den as int);
        assert(t >= 1) by (nonlinear_arith)
            requires
                0 < den <= num,
                num == den * t + num % den,
                num % den < den,
        ;
    }
    let p: u128 = leading_power(t);
    let ghost e: nat = spec_floor_log2(t as nat);
    let ghost m: nat = spec_round_half_even(num as nat * pow2(52), den as nat * p as nat);
    let significand: u128 = if p <= TWO_52 {
        let s: u128 = TWO_52 / p;
        proof {
            lemma_pow2_le(e, 52);
            lemma_pow2_adds((52 - e) as nat, e);
            lemma_pow2_pos(e);
            lemma_pow2_pos((52 - e) as nat);
            let sp = pow2((52 - e) as nat);
            assert(s == sp) by {
                lemma_div_multiples_vanish(sp as int, p as int);
                lemma_mul_is_commutative(sp as int, p as int);
            }
            assert(num * s < den * (2 * TWO_52) && num as nat * pow2(52) == (num * s) * p)
                by (nonlinear_arith)
                requires
                    num < 2 * p * den,
                    TWO_52 == s * p,
                    pow2(52) == TWO_52,
                    s > 0,
                    p > 0,
            ;
            assert(den * (2 * TWO_52) < 0x1_0000_0000_0000_0000_0000_0000_0000_0000)
                by (nonlinear_arith)
                requires
                    den < TWO_75,
            ;
            lemma_round_half_even_scale((num * s) as nat, den as nat, p as nat);
        }
        round_half_even(num * s, den)
    } else {
        let s: u128 = p / TWO_52;
        proof {
            lemma_pow2_le(52, e);
            lemma_pow2_adds((e - 52) as nat, 52);
            lemma_pow2_pos((e - 52) as nat);
            let sp = pow2((e - 52) as nat);
            assert(s == sp) by {
                lemma_div_multiples_vanish(sp as int, TWO_52 as int);
                lemma_mul_is_commutative(sp as int, TWO_52 as int);
            }
            assert(den * s <= num && den as nat * p as nat == (den * s) * pow2(52) && den * s > 0)
                by (nonlinear_arith)
                requires
                    p * den <= num,
                    p == s * TWO_52,
                    pow2(52) == TWO_52,
                    s > 0,
                    den > 0,
            ;
            lemma_round_half_even_scale(num as nat, (den * s) as nat, pow2(52));
        }
        round_half_even(num, den * s)
    };
    proof {
        assert(significand == m);
        assert(m * p < 0x1_0000_0000_0000_0000_0000_0000_0000_0000) by (nonlinear_arith)
            requires
                m <= 2 * TWO_52,
                p < TWO_75,
        ;
    }
    significand * p
}

} // verus!
