//! Integer arithmetic shared by the time types: rounded division, the
//! greatest common divisor, and the facts about both that the rescale ladder
//! and the canonical (reduced) forms lean on.

use vstd::arithmetic::div_mod::*;
use vstd::arithmetic::mul::*;
use crate::model::clamp_i64;
use vstd::prelude::*;

verus! {

/// `n / d` rounded to the nearest integer, halfway cases away from zero —
/// FFmpeg's `AV_ROUND_NEAR_INF`. Meaningful for `d > 0`.
///
/// For a non-negative `n` this is `floor(n/d + 1/2)`; a negative `n` is the
/// mirror image, so the sign carries through unchanged.
pub open spec fn round_half_away(n: int, d: int) -> int {
    if n >= 0 {
        (2 * n + d) / (2 * d)
    } else {
        -((2 * (-n) + d) / (2 * d))
    }
}

/// `n / d` truncated toward zero (Rust's integer division). Meaningful for
/// `d > 0`.
pub open spec fn div_toward_zero(n: int, d: int) -> int {
    if n >= 0 {
        n / d
    } else {
        -((-n) / d)
    }
}

/// The absolute value.
pub open spec fn abs(n: int) -> nat {
    if n >= 0 {
        n as nat
    } else {
        (-n) as nat
    }
}

/// The greatest common divisor, by Euclid's recursion: `gcd(a, 0) = a`.
pub open spec fn gcd(a: nat, b: nat) -> nat
    decreases b,
{
    if b == 0 {
        a
    } else {
        gcd(b, a % b)
    }
}

/// Bezout coefficients `(s, t)` with `a * s + b * t == gcd(a, b)`, from the
/// extended form of Euclid's recursion.
pub open spec fn bezout(a: nat, b: nat) -> (int, int)
    decreases b,
{
    if b == 0 {
        (1, 0)
    } else {
        let st = bezout(b, a % b);
        (st.1, st.0 - (a / b) as int * st.1)
    }
}

/// `d` divides `n`, for a positive `d`.
pub open spec fn divides(d: int, n: int) -> bool {
    n % d == 0
}

/// `n` reduced by `g`: the exact quotient of a multiple of `g`, sign kept.
pub open spec fn exact_div(n: int, g: int) -> int {
    if n >= 0 {
        n / g
    } else {
        -((-n) / g)
    }
}

// ---------------------------------------------------------------------------
// Rounding
// ---------------------------------------------------------------------------

/// For a non-negative numerator, rounding half up is truncating and then
/// bumping by one exactly when twice the remainder reaches the divisor.
pub proof fn lemma_round_half_up_by_remainder(n: int, d: int)
    requires
        n >= 0,
        d > 0,
    ensures
        (2 * n + d) / (2 * d) == n / d + (if 2 * (n % d) >= d { 1int } else { 0int }),
{
    let q = n / d;
    let r = n % d;
    lemma_fundamental_div_mod(n, d);
    lemma_mod_bound(n, d);
    assert(n == d * q + r);
    if 2 * r >= d {
        assert(2 * n + d == (q + 1) * (2 * d) + (2 * r - d)) by (nonlinear_arith)
            requires
                n == d * q + r,
        ;
        lemma_fundamental_div_mod_converse(2 * n + d, 2 * d, q + 1, 2 * r - d);
    } else {
        assert(2 * n + d == q * (2 * d) + (2 * r + d)) by (nonlinear_arith)
            requires
                n == d * q + r,
        ;
        lemma_fundamental_div_mod_converse(2 * n + d, 2 * d, q, 2 * r + d);
    }
}

/// The rounded quotient is a *nearest* integer: the exact quotient is never
/// more than half a step away from it, and a tie goes away from zero.
pub proof fn lemma_round_half_away_is_nearest(n: int, d: int)
    requires
        d > 0,
    ensures
        n >= 0 ==> 2 * round_half_away(n, d) * d - d <= 2 * n < 2 * round_half_away(n, d) * d + d,
        n < 0 ==> 2 * round_half_away(n, d) * d - d < 2 * n <= 2 * round_half_away(n, d) * d + d,
{
    if n >= 0 {
        let m = 2 * n + d;
        let q = m / (2 * d);
        lemma_fundamental_div_mod(m, 2 * d);
        lemma_mod_bound(m, 2 * d);
        assert(2 * q * d - d <= 2 * n < 2 * q * d + d) by (nonlinear_arith)
            requires
                m == (2 * d) * q + m % (2 * d),
                0 <= m % (2 * d) < 2 * d,
                m == 2 * n + d,
        ;
    } else {
        let m = 2 * (-n) + d;
        let q = m / (2 * d);
        lemma_fundamental_div_mod(m, 2 * d);
        lemma_mod_bound(m, 2 * d);
        assert(2 * (-q) * d - d < 2 * n <= 2 * (-q) * d + d) by (nonlinear_arith)
            requires
                m == (2 * d) * q + m % (2 * d),
                0 <= m % (2 * d) < 2 * d,
                m == 2 * (-n) + d,
        ;
    }
}

/// Rounding is monotone in the numerator.
pub proof fn lemma_round_half_away_monotone(a: int, b: int, d: int)
    requires
        d > 0,
        a <= b,
    ensures
        round_half_away(a, d) <= round_half_away(b, d),
{
    lemma_round_half_away_is_nearest(a, d);
    lemma_round_half_away_is_nearest(b, d);
    let qa = round_half_away(a, d);
    let qb = round_half_away(b, d);
    if qa > qb {
        // qa >= qb + 1, so 2*qa*d >= 2*qb*d + 2*d; the window bounds clash.
        assert(2 * qa * d >= 2 * qb * d + 2 * d) by (nonlinear_arith)
            requires
                qa >= qb + 1,
                d > 0,
        ;
        if a >= 0 {
            assert(false);
        } else if b < 0 {
            assert(false);
        } else {
            assert(false);
        }
    }
}

/// A non-negative quotient rounds to the one integer whose half-open window
/// holds it.
pub proof fn lemma_round_half_away_unique(n: int, d: int, q: int)
    requires
        d > 0,
        n >= 0,
        2 * q * d - d <= 2 * n < 2 * q * d + d,
    ensures
        round_half_away(n, d) == q,
{
    lemma_round_half_away_is_nearest(n, d);
    let r = round_half_away(n, d);
    if r > q {
        assert(2 * r * d >= 2 * q * d + 2 * d) by (nonlinear_arith)
            requires
                r >= q + 1,
                d > 0,
        ;
    } else if r < q {
        assert(2 * r * d + 2 * d <= 2 * q * d) by (nonlinear_arith)
            requires
                r + 1 <= q,
                d > 0,
        ;
    }
}

/// Rounding an exact multiple returns the multiple's quotient.
pub proof fn lemma_round_half_away_exact(q: int, d: int)
    requires
        d > 0,
    ensures
        round_half_away(q * d, d) == q,
{
    lemma_round_half_away_is_nearest(q * d, d);
    let r = round_half_away(q * d, d);
    if r > q {
        assert(2 * r * d >= 2 * q * d + 2 * d) by (nonlinear_arith)
            requires
                r >= q + 1,
                d > 0,
        ;
        assert(2 * (q * d) == 2 * q * d) by (nonlinear_arith);
    } else if r < q {
        assert(2 * r * d + 2 * d <= 2 * q * d) by (nonlinear_arith)
            requires
                r + 1 <= q,
                d > 0,
        ;
        assert(2 * (q * d) == 2 * q * d) by (nonlinear_arith);
    }
}

/// `(x * k) / (y * k) == x / y` for positive `y` and `k` and any `x >= 0`.
pub proof fn lemma_div_multiples_cancel(x: int, y: int, k: int)
    requires
        x >= 0,
        y > 0,
        k > 0,
    ensures
        (x * k) / (y * k) == x / y,
{
    let q = x / y;
    let r = x % y;
    lemma_fundamental_div_mod(x, y);
    lemma_mod_bound(x, y);
    assert(x * k == q * (y * k) + r * k) by (nonlinear_arith)
        requires
            x == y * q + r,
    ;
    assert(0 <= r * k < y * k) by (nonlinear_arith)
        requires
            0 <= r < y,
            k > 0,
    ;
    assert(y * k != 0) by (nonlinear_arith)
        requires
            y > 0,
            k > 0,
    ;
    lemma_fundamental_div_mod_converse(x * k, y * k, q, r * k);
}

/// `n / d` rounded to nearest, halfway cases away from zero.
///
/// The numerator's magnitude is bounded so that doubling a remainder, and
/// negating the numerator, stay inside `i128`.
pub fn div_round_half_away(n: i128, d: i128) -> (q: i128)
    requires
        d > 0,
        d < 0x4000_0000_0000_0000_0000_0000_0000_0000,
        -0x4000_0000_0000_0000_0000_0000_0000_0000 < n < 0x4000_0000_0000_0000_0000_0000_0000_0000,
    ensures
        q == round_half_away(n as int, d as int),
{
    if n >= 0 {
        let q = n / d;
        let r = n % d;
        proof {
            lemma_round_half_up_by_remainder(n as int, d as int);
            lemma_mod_bound(n as int, d as int);
            lemma_div_pos_is_pos(n as int, d as int);
            lemma_div_is_ordered_by_denominator(n as int, 1, d as int);
        }
        if 2 * r >= d {
            q + 1
        } else {
            q
        }
    } else {
        let m = -n;
        let q = m / d;
        let r = m % d;
        proof {
            lemma_round_half_up_by_remainder(m as int, d as int);
            lemma_mod_bound(m as int, d as int);
            lemma_div_pos_is_pos(m as int, d as int);
            lemma_div_is_ordered_by_denominator(m as int, 1, d as int);
        }
        if 2 * r >= d {
            -(q + 1)
        } else {
            -q
        }
    }
}

/// `n / d` rounded to nearest with halfway cases up, for the unsigned
/// operands where "away from zero" is "up".
pub fn div_round_half_up(n: u128, d: u128) -> (q: u128)
    requires
        d > 0,
        d < 0x8000_0000_0000_0000_0000_0000_0000_0000,
    ensures
        q == round_half_away(n as int, d as int),
{
    let q = n / d;
    let r = n % d;
    proof {
        lemma_round_half_up_by_remainder(n as int, d as int);
        lemma_mod_bound(n as int, d as int);
        lemma_div_is_ordered_by_denominator(n as int, 1, d as int);
    }
    if 2 * r >= d {
        proof {
            // q + 1 <= n / d + 1, and n / d < n unless d == 1 where r == 0.
            assert(d >= 2);
            lemma_div_is_ordered_by_denominator(n as int, 2, d as int);
        }
        q + 1
    } else {
        q
    }
}

// ---------------------------------------------------------------------------
// Greatest common divisor
// ---------------------------------------------------------------------------

/// `gcd(a, b)` divides both arguments whenever it is positive.
pub proof fn lemma_gcd_divides(a: nat, b: nat)
    requires
        gcd(a, b) > 0,
    ensures
        (a as int) % (gcd(a, b) as int) == 0,
        (b as int) % (gcd(a, b) as int) == 0,
    decreases b,
{
    let g = gcd(a, b) as int;
    if b == 0 {
        lemma_mod_self_0(a as int);
        lemma_small_mod(0, a);
    } else {
        let r = a % b;
        lemma_gcd_divides(b, r);
        // a == (a / b) * b + r, and g divides both b and r.
        lemma_fundamental_div_mod(a as int, b as int);
        let q = (a / b) as int;
        let kb = (b as int) / g;
        let kr = (r as int) / g;
        lemma_fundamental_div_mod(b as int, g);
        lemma_fundamental_div_mod(r as int, g);
        assert(a as int == (q * kb + kr) * g) by (nonlinear_arith)
            requires
                a as int == b as int * q + r as int,
                b as int == g * kb,
                r as int == g * kr,
        ;
        lemma_mod_multiples_basic(q * kb + kr, g);
    }
}

/// The gcd is positive as soon as either argument is.
pub proof fn lemma_gcd_positive(a: nat, b: nat)
    requires
        a > 0 || b > 0,
    ensures
        gcd(a, b) > 0,
    decreases b,
{
    if b > 0 {
        lemma_gcd_positive(b, a % b);
    }
}

/// A positive gcd is at most either positive argument.
pub proof fn lemma_gcd_le(a: nat, b: nat)
    requires
        b > 0,
    ensures
        gcd(a, b) <= b,
{
    lemma_gcd_positive(a, b);
    lemma_gcd_divides(a, b);
    let g = gcd(a, b) as int;
    lemma_fundamental_div_mod(b as int, g);
    let k = (b as int) / g;
    if k <= 0 {
        assert(g * k <= 0) by (nonlinear_arith)
            requires
                g > 0,
                k <= 0,
        ;
    } else {
        assert(g <= g * k) by (nonlinear_arith)
            requires
                g > 0,
                k >= 1,
        ;
    }
}

/// `gcd(k*a, k*b) == k * gcd(a, b)` for a positive factor `k`.
pub proof fn lemma_gcd_scale(a: nat, b: nat, k: nat)
    requires
        k > 0,
    ensures
        gcd(k * a, k * b) == k * gcd(a, b),
    decreases b,
{
    if b == 0 {
        assert(k * b == 0) by (nonlinear_arith)
            requires
                b == 0,
        ;
    } else {
        assert(k * b > 0) by (nonlinear_arith)
            requires
                k > 0,
                b > 0,
        ;
        let q = (a / b) as int;
        let r = (a % b) as int;
        lemma_fundamental_div_mod(a as int, b as int);
        lemma_mod_bound(a as int, b as int);
        assert((k * a) as int == q * (k * b) as int + (k as int) * r) by (nonlinear_arith)
            requires
                a as int == b as int * q + r,
        ;
        assert(0 <= (k as int) * r < (k * b) as int) by (nonlinear_arith)
            requires
                0 <= r < b as int,
                k > 0,
        ;
        lemma_fundamental_div_mod_converse((k * a) as int, (k * b) as int, q, (k as int) * r);
        assert((k * a) % (k * b) == k * (a % b));
        lemma_gcd_scale(b, a % b, k);
    }
}

/// Bezout's identity: `a * s + b * t == gcd(a, b)`.
pub proof fn lemma_bezout(a: nat, b: nat)
    ensures
        a * bezout(a, b).0 + b * bezout(a, b).1 == gcd(a, b),
    decreases b,
{
    if b > 0 {
        lemma_bezout(b, a % b);
        let st = bezout(b, a % b);
        let q = (a / b) as int;
        let r = (a % b) as int;
        lemma_fundamental_div_mod(a as int, b as int);
        assert(a * st.1 + b * (st.0 - q * st.1) == b * st.0 + r * st.1) by (nonlinear_arith)
            requires
                a as int == b as int * q + r,
        ;
        assert(bezout(a, b) == (st.1, st.0 - q * st.1));
        assert(gcd(a, b) == gcd(b, a % b));
        assert(b * st.0 + (a % b) * st.1 == gcd(b, a % b));
        assert(b * st.0 + r * st.1 == gcd(a, b));
        assert(a * bezout(a, b).0 + b * bezout(a, b).1 == a * st.1 + b * (st.0 - q * st.1));
    } else {
        assert(bezout(a, b) == (1int, 0int));
        assert(a * 1int + b * 0int == a) by (nonlinear_arith);
    }
}

/// Two fractions in lowest terms with positive denominators that name the
/// same value are the same pair.
pub proof fn lemma_lowest_terms_unique(x: int, y: int, x2: int, y2: int)
    requires
        y > 0,
        y2 > 0,
        gcd(abs(x), y as nat) == 1,
        gcd(abs(x2), y2 as nat) == 1,
        x * y2 == x2 * y,
    ensures
        x == x2,
        y == y2,
{
    lemma_divides_other_denominator(x, y, x2, y2);
    lemma_divides_other_denominator(x2, y2, x, y);
    // y | y2 and y2 | y with both positive.
    let k1 = y2 / y;
    let k2 = y / y2;
    lemma_fundamental_div_mod(y2, y);
    lemma_fundamental_div_mod(y, y2);
    assert(y == y2) by (nonlinear_arith)
        requires
            y2 == y * k1,
            y == y2 * k2,
            y > 0,
            y2 > 0,
    ;
    assert(x == x2) by (nonlinear_arith)
        requires
            x * y2 == x2 * y,
            y == y2,
            y > 0,
    ;
}

/// If `x/y` is in lowest terms and `x/y == x2/y2`, then `y` divides `y2`.
proof fn lemma_divides_other_denominator(x: int, y: int, x2: int, y2: int)
    requires
        y > 0,
        y2 > 0,
        gcd(abs(x), y as nat) == 1,
        x * y2 == x2 * y,
    ensures
        y2 % y == 0,
{
    let ax = abs(x);
    lemma_bezout(ax, y as nat);
    let st = bezout(ax, y as nat);
    let s = st.0;
    let t = st.1;
    // |x| * s + y * t == 1; multiply through by y2.
    let sx = if x >= 0 { s } else { -s };
    assert(x * sx == ax * s) by (nonlinear_arith)
        requires
            ax == abs(x),
            sx == (if x >= 0 { s } else { -s }),
    ;
    assert(x * sx + y * t == 1);
    assert(y2 == y * (x2 * sx + t * y2)) by (nonlinear_arith)
        requires
            x * sx + y * t == 1,
            x * y2 == x2 * y,
    ;
    lemma_mod_multiples_basic(x2 * sx + t * y2, y);
    assert(y * (x2 * sx + t * y2) == (x2 * sx + t * y2) * y) by (nonlinear_arith);
}

/// Dividing out the gcd leaves a pair in lowest terms.
pub proof fn lemma_divided_by_gcd_is_lowest(a: nat, b: nat)
    requires
        b > 0,
    ensures
        gcd(a, b) > 0,
        gcd(a / gcd(a, b), b / gcd(a, b)) == 1,
        a == (a / gcd(a, b)) * gcd(a, b),
        b == (b / gcd(a, b)) * gcd(a, b),
{
    lemma_gcd_positive(a, b);
    lemma_gcd_divides(a, b);
    let g = gcd(a, b);
    let a2 = a / g;
    let b2 = b / g;
    lemma_fundamental_div_mod(a as int, g as int);
    lemma_fundamental_div_mod(b as int, g as int);
    assert(a == g * a2);
    assert(b == g * b2);
    lemma_gcd_scale(a2, b2, g);
    assert(g * gcd(a2, b2) == g);
    assert(gcd(a2, b2) == 1) by (nonlinear_arith)
        requires
            g * gcd(a2, b2) == g,
            g > 0,
    ;
}

/// The gcd of two `u32`s, by Euclid's loop.
pub fn gcd_u32(a0: u32, b0: u32) -> (g: u32)
    ensures
        g == gcd(a0 as nat, b0 as nat),
{
    let mut a = a0;
    let mut b = b0;
    while b != 0
        invariant
            gcd(a as nat, b as nat) == gcd(a0 as nat, b0 as nat),
        decreases b,
    {
        let t = b;
        b = a % b;
        a = t;
    }
    a
}

/// The gcd of two `u128`s, by Euclid's loop.
pub fn gcd_u128(a0: u128, b0: u128) -> (g: u128)
    ensures
        g == gcd(a0 as nat, b0 as nat),
{
    let mut a = a0;
    let mut b = b0;
    while b != 0
        invariant
            gcd(a as nat, b as nat) == gcd(a0 as nat, b0 as nat),
        decreases b,
    {
        let t = b;
        b = a % b;
        a = t;
    }
    a
}

/// `a + b`, clamped to the `i64` range instead of overflowing.
pub fn saturating_add_i64(a: i64, b: i64) -> (r: i64)
    ensures
        r == clamp_i64(a + b),
{
    let s = (a as i128) + (b as i128);
    if s > i64::MAX as i128 {
        i64::MAX
    } else if s < i64::MIN as i128 {
        i64::MIN
    } else {
        s as i64
    }
}

/// `a - b`, clamped to the `i64` range instead of overflowing.
pub fn saturating_sub_i64(a: i64, b: i64) -> (r: i64)
    ensures
        r == clamp_i64(a - b),
{
    let s = (a as i128) - (b as i128);
    if s > i64::MAX as i128 {
        i64::MAX
    } else if s < i64::MIN as i128 {
        i64::MIN
    } else {
        s as i64
    }
}

/// `(x * k) / c` split at the whole quotient: `x / c` whole parts and the
/// remainder's share.
pub proof fn lemma_div_split(x: int, c: int, k: int)
    requires
        x >= 0,
        c > 0,
        k >= 0,
    ensures
        (x * k) / c == (x / c) * k + ((x % c) * k) / c,
        0 <= ((x % c) * k) / c <= k,
{
    let q = x / c;
    let r = x % c;
    lemma_fundamental_div_mod(x, c);
    lemma_mod_bound(x, c);
    assert(x * k == (q * k) * c + r * k) by (nonlinear_arith)
        requires
            x == c * q + r,
    ;
    assert(r * k >= 0) by (nonlinear_arith)
        requires
            r >= 0,
            k >= 0,
    ;
    let q2 = (r * k) / c;
    let r2 = (r * k) % c;
    lemma_fundamental_div_mod(r * k, c);
    lemma_mod_bound(r * k, c);
    assert(x * k == (q * k + q2) * c + r2) by (nonlinear_arith)
        requires
            x * k == (q * k) * c + r * k,
            r * k == c * q2 + r2,
    ;
    lemma_fundamental_div_mod_converse(x * k, c, q * k + q2, r2);
    lemma_div_pos_is_pos(r * k, c);
    assert(r * k <= c * k) by (nonlinear_arith)
        requires
            0 <= r < c,
            k >= 0,
    ;
    lemma_div_is_ordered(r * k, c * k, c);
    lemma_div_multiples_vanish(k, c);
}

} // verus!
