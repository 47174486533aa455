//! What holds of the library as a whole: the order and equality laws of the
//! value-based comparisons, the canonical forms the hashes are built on, and
//! the laws of the rescale ladder.

use crate::arith::{
    abs, exact_div, gcd, lemma_divided_by_gcd_is_lowest, lemma_lowest_terms_unique,
    lemma_round_half_away_exact, lemma_round_half_away_is_nearest, lemma_round_half_away_unique,
    round_half_away,
};
use crate::model::{
    canonical_instant, checked_recount, checked_rescale, clamp_i64, cmp_int, duration_ticks,
    in_i64, instant_cmp, nanos_per_sec, rescaled, saturating_recount, saturating_rescale,
    tick_nanos, value_cmp, value_eq, Interval, Rational, Ticks,
};
use crate::primitives::max_duration_nanos;
use crate::roster::{rate_roster, timebase_roster};
use crate::timebase::lemma_round_half_up_nonneg;
use core::cmp::Ordering;
use vstd::arithmetic::div_mod::{lemma_fundamental_div_mod, lemma_fundamental_div_mod_converse};
use vstd::prelude::*;

verus! {

/// The reverse of an ordering.
pub open spec fn reversed(o: Ordering) -> Ordering {
    match o {
        Ordering::Less => Ordering::Greater,
        Ordering::Equal => Ordering::Equal,
        Ordering::Greater => Ordering::Less,
    }
}

/// A rational with a positive denominator and a numerator of either sign —
/// the value an instant or a span measures.
pub open spec fn signed_valid(r: Rational) -> bool {
    r.den > 0
}

/// The instant (or span) `a` as the rational number of seconds it measures.
pub open spec fn seconds_of(a: Ticks) -> Rational {
    Rational { num: a.count * a.tb.num, den: a.tb.den }
}

// ---------------------------------------------------------------------------
// Value comparison of rationals
// ---------------------------------------------------------------------------

/// Comparing `b` with `a` gives the reverse of comparing `a` with `b`, and the
/// order's `Equal` is exactly value equality.
pub proof fn law_value_cmp_antisymmetric(a: Rational, b: Rational)
    ensures
        value_cmp(b, a) == reversed(value_cmp(a, b)),
        (value_cmp(a, b) == Ordering::Equal) == value_eq(a, b),
        value_cmp(a, a) == Ordering::Equal,
{
}

/// The value order is transitive, in both its weak and strict forms, for
/// rationals with positive denominators.
pub proof fn law_value_cmp_transitive(a: Rational, b: Rational, c: Rational)
    requires
        signed_valid(a),
        signed_valid(b),
        signed_valid(c),
    ensures
        value_cmp(a, b) != Ordering::Greater && value_cmp(b, c) != Ordering::Greater
            ==> value_cmp(a, c) != Ordering::Greater,
        value_cmp(a, b) == Ordering::Less && value_cmp(b, c) != Ordering::Greater ==> value_cmp(
            a,
            c,
        ) == Ordering::Less,
        value_cmp(a, b) != Ordering::Greater && value_cmp(b, c) == Ordering::Less ==> value_cmp(
            a,
            c,
        ) == Ordering::Less,
{
    let (an, ad, bn, bd, cn, cd) = (a.num, a.den, b.num, b.den, c.num, c.den);
    // a <= b and b <= c, scaled by the third denominator, chain through b.
    assert(an * bd <= bn * ad && bn * cd <= cn * bd ==> an * cd <= cn * ad) by (nonlinear_arith)
        requires
            ad > 0,
            bd > 0,
            cd > 0,
    ;
    assert(an * bd < bn * ad && bn * cd <= cn * bd ==> an * cd < cn * ad) by (nonlinear_arith)
        requires
            ad > 0,
            bd > 0,
            cd > 0,
    ;
    assert(an * bd <= bn * ad && bn * cd < cn * bd ==> an * cd < cn * ad) by (nonlinear_arith)
        requires
            ad > 0,
            bd > 0,
            cd > 0,
    ;
}

/// Value equality of timebases is an equivalence relation: `1/2 == 2/4 ==
/// 3/6`.
pub proof fn law_value_eq_is_an_equivalence(a: Rational, b: Rational, c: Rational)
    requires
        signed_valid(a),
        signed_valid(b),
        signed_valid(c),
    ensures
        value_eq(a, a),
        value_eq(a, b) ==> value_eq(b, a),
        value_eq(a, b) && value_eq(b, c) ==> value_eq(a, c),
{
    law_value_cmp_transitive(a, b, c);
    law_value_cmp_transitive(c, b, a);
    law_value_cmp_antisymmetric(a, b);
    law_value_cmp_antisymmetric(b, c);
    law_value_cmp_antisymmetric(a, c);
}

// ---------------------------------------------------------------------------
// Instants and spans
// ---------------------------------------------------------------------------

/// The order of instants is the value order of the seconds they measure.
pub proof fn lemma_instant_cmp_is_value_cmp(a: Ticks, b: Ticks)
    ensures
        instant_cmp(a, b) == value_cmp(seconds_of(a), seconds_of(b)),
{
}

/// `cmp_semantic` (on timestamps and on spans alike) is a total preorder:
/// reflexive, antisymmetric and transitive, with `Equal` meaning the same
/// instant — so the `==` built on it is an equivalence, even across
/// degenerate `0/den` timebases, where every count names instant zero.
pub proof fn law_instant_order_is_total(a: Ticks, b: Ticks, c: Ticks)
    requires
        a.tb.valid(),
        b.tb.valid(),
        c.tb.valid(),
    ensures
        instant_cmp(a, a) == Ordering::Equal,
        instant_cmp(b, a) == reversed(instant_cmp(a, b)),
        instant_cmp(a, b) != Ordering::Greater && instant_cmp(b, c) != Ordering::Greater
            ==> instant_cmp(a, c) != Ordering::Greater,
        instant_cmp(a, b) == Ordering::Less && instant_cmp(b, c) != Ordering::Greater
            ==> instant_cmp(a, c) == Ordering::Less,
        instant_cmp(a, b) == Ordering::Equal && instant_cmp(b, c) == Ordering::Equal
            ==> instant_cmp(a, c) == Ordering::Equal,
{
    lemma_instant_cmp_is_value_cmp(a, b);
    lemma_instant_cmp_is_value_cmp(b, a);
    lemma_instant_cmp_is_value_cmp(b, c);
    lemma_instant_cmp_is_value_cmp(a, c);
    lemma_instant_cmp_is_value_cmp(a, a);
    law_value_cmp_antisymmetric(seconds_of(a), seconds_of(b));
    law_value_cmp_antisymmetric(seconds_of(a), seconds_of(a));
    law_value_cmp_transitive(seconds_of(a), seconds_of(b), seconds_of(c));
    law_value_cmp_transitive(seconds_of(c), seconds_of(b), seconds_of(a));
    law_value_cmp_antisymmetric(seconds_of(b), seconds_of(c));
    lemma_instant_cmp_is_value_cmp(c, b);
    lemma_instant_cmp_is_value_cmp(b, a);
    lemma_instant_cmp_is_value_cmp(c, a);
    law_value_cmp_antisymmetric(seconds_of(a), seconds_of(c));
    assert(a.count * a.tb.num * b.tb.den == (a.count * a.tb.num) * b.tb.den);
}

/// Every count of a degenerate `0/den` timebase names instant zero: it
/// compares equal to instant zero in any timebase.
pub proof fn law_degenerate_counts_are_instant_zero(a: Ticks, origin: Rational)
    requires
        a.tb.valid(),
        a.tb.num == 0,
        origin.valid(),
    ensures
        instant_cmp(a, Ticks { count: 0, tb: origin }) == Ordering::Equal,
{
    assert(a.count * a.tb.num * origin.den == 0) by (nonlinear_arith)
        requires
            a.tb.num == 0,
    ;
    assert(0 * origin.num * a.tb.den == 0) by (nonlinear_arith);
}

// ---------------------------------------------------------------------------
// Canonical forms: what the hashes hash
// ---------------------------------------------------------------------------

/// `reduce` is a canonicalization: it keeps the value, lands in lowest terms,
/// and is idempotent.
pub proof fn law_reduce_canonicalizes(a: Rational)
    requires
        a.valid(),
    ensures
        a.reduced().valid(),
        value_eq(a.reduced(), a),
        a.reduced().is_lowest(),
        a.reduced().reduced() == a.reduced(),
        a.is_lowest() ==> a.reduced() == a,
{
    lemma_divided_by_gcd_is_lowest(a.num as nat, a.den as nat);
    let g = gcd(a.num as nat, a.den as nat) as int;
    let r = a.reduced();
    assert(r.num >= 0 && r.den > 0) by (nonlinear_arith)
        requires
            a.num == r.num * g,
            a.den == r.den * g,
            g > 0,
            a.num >= 0,
            a.den > 0,
    ;
    assert(r.num * a.den == a.num * r.den) by (nonlinear_arith)
        requires
            a.num == r.num * g,
            a.den == r.den * g,
    ;
    // Dividing by a gcd of 1 changes nothing.
    assert(gcd(r.num as nat, r.den as nat) == 1);
    assert(r.num / 1 == r.num);
    assert(r.den / 1 == r.den);
    assert(r.reduced() == r);
    if a.is_lowest() {
        assert(a.reduced() == a);
    }
}

/// Equal timebases reduce to the same pair, which is why hashing the reduced
/// form agrees with value equality: `1/2`, `2/4` and `3/6` hash alike.
pub proof fn law_equal_timebases_reduce_alike(a: Rational, b: Rational)
    requires
        a.valid(),
        b.valid(),
        value_eq(a, b),
    ensures
        a.reduced() == b.reduced(),
{
    law_reduce_canonicalizes(a);
    law_reduce_canonicalizes(b);
    let ra = a.reduced();
    let rb = b.reduced();
    let ga = gcd(a.num as nat, a.den as nat) as int;
    let gb = gcd(b.num as nat, b.den as nat) as int;
    lemma_divided_by_gcd_is_lowest(a.num as nat, a.den as nat);
    lemma_divided_by_gcd_is_lowest(b.num as nat, b.den as nat);
    assert(ra.num * rb.den == rb.num * ra.den) by (nonlinear_arith)
        requires
            a.num == ra.num * ga,
            a.den == ra.den * ga,
            b.num == rb.num * gb,
            b.den == rb.den * gb,
            a.num * b.den == b.num * a.den,
            ga > 0,
            gb > 0,
    ;
    assert(abs(ra.num) == ra.num as nat);
    assert(abs(rb.num) == rb.num as nat);
    lemma_lowest_terms_unique(ra.num, ra.den, rb.num, rb.den);
}

/// The canonical form of an instant is in lowest terms and names the same
/// instant.
pub proof fn lemma_canonical_instant_facts(a: Ticks) -> (g: int)
    requires
        a.tb.valid(),
    ensures
        canonical_instant(a).1 > 0,
        gcd(abs(canonical_instant(a).0), canonical_instant(a).1 as nat) == 1,
        canonical_instant(a).0 * g == a.count * a.tb.num,
        canonical_instant(a).1 * g == a.tb.den,
        g > 0,
{
    let n = a.count * a.tb.num;
    let m = abs(n);
    lemma_divided_by_gcd_is_lowest(m, a.tb.den as nat);
    let g = gcd(m, a.tb.den as nat) as int;
    let q = (m as int) / g;
    assert(m as int == q * g);
    assert(q >= 0) by (nonlinear_arith)
        requires
            m as int == q * g,
            g > 0,
            m >= 0,
    ;
    let c = canonical_instant(a);
    assert(c.0 == exact_div(n, g));
    if n >= 0 {
        assert(c.0 == q);
        assert(abs(c.0) == q as nat);
    } else {
        assert(c.0 == -q);
        assert(abs(c.0) == q as nat);
        assert(c.0 * g == n) by (nonlinear_arith)
            requires
                c.0 == -q,
                m as int == q * g,
                m as int == -n,
        ;
    }
    let d2 = a.tb.den / g;
    assert(a.tb.den == d2 * g);
    assert(d2 > 0) by (nonlinear_arith)
        requires
            a.tb.den == d2 * g,
            g > 0,
            a.tb.den > 0,
    ;
    g
}

/// Timestamps that name the same instant have the same canonical form, which
/// is why hashing it agrees with the semantic `==`: `1000 @ 1/1000`,
/// `90000 @ 1/90000` and `2000 @ 1/2000` hash alike.
pub proof fn law_equal_instants_have_one_canonical_form(a: Ticks, b: Ticks)
    requires
        a.tb.valid(),
        b.tb.valid(),
        instant_cmp(a, b) == Ordering::Equal,
    ensures
        canonical_instant(a) == canonical_instant(b),
{
    let ga = lemma_canonical_instant_facts(a);
    let gb = lemma_canonical_instant_facts(b);
    let ca = canonical_instant(a);
    let cb = canonical_instant(b);
    let na = a.count * a.tb.num;
    let nb = b.count * b.tb.num;
    assert(na * b.tb.den == nb * a.tb.den) by (nonlinear_arith)
        requires
            a.count * a.tb.num * b.tb.den == b.count * b.tb.num * a.tb.den,
            na == a.count * a.tb.num,
            nb == b.count * b.tb.num,
    ;
    assert(ca.0 * cb.1 == cb.0 * ca.1) by (nonlinear_arith)
        requires
            ca.0 * ga == na,
            ca.1 * ga == a.tb.den,
            cb.0 * gb == nb,
            cb.1 * gb == b.tb.den,
            na * b.tb.den == nb * a.tb.den,
            ga > 0,
            gb > 0,
    ;
    lemma_lowest_terms_unique(ca.0, ca.1, cb.0, cb.1);
}

// ---------------------------------------------------------------------------
// The reciprocal
// ---------------------------------------------------------------------------

/// The reciprocal of a reciprocal is where it started — structurally — and
/// the reciprocal of a valid non-degenerate rational is again valid.
pub proof fn law_recip_is_an_involution(a: Rational)
    requires
        a.valid(),
        a.num != 0,
    ensures
        a.recip().valid(),
        a.recip().recip() == a,
        a.recip().num != 0,
{
}

// ---------------------------------------------------------------------------
// The rescale ladder
// ---------------------------------------------------------------------------

/// Rescaling into the timebase a count is already in returns it unchanged,
/// on both rungs.
pub proof fn law_rescale_into_the_same_timebase_is_the_identity(pts: int, tb: Rational)
    requires
        tb.valid(),
        tb.num != 0,
        in_i64(pts),
    ensures
        rescaled(pts, tb, tb) == pts,
        checked_rescale(pts, tb, tb) == Some(pts),
        saturating_rescale(pts, tb, tb) == pts,
{
    assert(pts * tb.num * tb.den == pts * (tb.den * tb.num)) by (nonlinear_arith);
    assert(tb.den * tb.num > 0) by (nonlinear_arith)
        requires
            tb.den > 0,
            tb.num > 0,
    ;
    lemma_round_half_away_exact(pts, tb.den * tb.num);
}

/// The tick a rescale lands on is a nearest one: the exact quotient
/// `n / d = pts * from / to` is never more than half a tick away, and when it
/// is exactly half a tick away the tick chosen is the one further from zero.
pub proof fn law_rescale_lands_within_half_a_tick(pts: int, from: Rational, to: Rational)
    requires
        from.valid(),
        to.valid(),
        to.num != 0,
    ensures
        ({
            let n = pts * from.num * to.den;
            let d = from.den * to.num;
            let q = rescaled(pts, from, to);
            &&& n >= 0 ==> 2 * q * d - d <= 2 * n < 2 * q * d + d
            &&& n < 0 ==> 2 * q * d - d < 2 * n <= 2 * q * d + d
        }),
{
    assert(from.den * to.num > 0) by (nonlinear_arith)
        requires
            from.den > 0,
            to.num > 0,
    ;
    lemma_round_half_away_is_nearest(pts * from.num * to.den, from.den * to.num);
}

/// Rounding to nearest (halfway away from zero) is monotone in the value
/// being rounded: `n1/d1 <= n2/d2` implies `round(n1/d1) <= round(n2/d2)`.
pub proof fn lemma_round_half_away_monotone_across(n1: int, d1: int, n2: int, d2: int)
    requires
        d1 > 0,
        d2 > 0,
        n1 * d2 <= n2 * d1,
    ensures
        round_half_away(n1, d1) <= round_half_away(n2, d2),
{
    lemma_round_half_away_is_nearest(n1, d1);
    lemma_round_half_away_is_nearest(n2, d2);
    let q1 = round_half_away(n1, d1);
    let q2 = round_half_away(n2, d2);
    if q1 > q2 {
        // Lower window edge of q1 and upper window edge of q2, in a common
        // denominator.
        assert((2 * q1 - 1) * d1 <= 2 * n1) by (nonlinear_arith)
            requires
                n1 >= 0 ==> 2 * q1 * d1 - d1 <= 2 * n1,
                n1 < 0 ==> 2 * q1 * d1 - d1 < 2 * n1,
        ;
        assert(2 * n2 <= (2 * q2 + 1) * d2) by (nonlinear_arith)
            requires
                n2 >= 0 ==> 2 * n2 < 2 * q2 * d2 + d2,
                n2 < 0 ==> 2 * n2 <= 2 * q2 * d2 + d2,
        ;
        assert((2 * q1 - 1) * d1 * d2 <= 2 * n1 * d2) by (nonlinear_arith)
            requires
                (2 * q1 - 1) * d1 <= 2 * n1,
                d2 > 0,
        ;
        assert(2 * n2 * d1 <= (2 * q2 + 1) * d2 * d1) by (nonlinear_arith)
            requires
                2 * n2 <= (2 * q2 + 1) * d2,
                d1 > 0,
        ;
        assert((2 * q1 - 1) * (d1 * d2) <= (2 * q2 + 1) * (d1 * d2)) by (nonlinear_arith)
            requires
                (2 * q1 - 1) * d1 * d2 <= 2 * n1 * d2,
                2 * n2 * d1 <= (2 * q2 + 1) * d2 * d1,
                n1 * d2 <= n2 * d1,
        ;
        assert(d1 * d2 > 0) by (nonlinear_arith)
            requires
                d1 > 0,
                d2 > 0,
        ;
        assert(2 * q1 - 1 <= 2 * q2 + 1) by (nonlinear_arith)
            requires
                (2 * q1 - 1) * (d1 * d2) <= (2 * q2 + 1) * (d1 * d2),
                d1 * d2 > 0,
        ;
        // So q1 == q2 + 1, and every inequality above is tight.
        assert(q1 == q2 + 1);
        assert(2 * n1 * d2 == 2 * n2 * d1) by (nonlinear_arith)
            requires
                (2 * q1 - 1) * d1 * d2 <= 2 * n1 * d2,
                2 * n2 * d1 <= (2 * q2 + 1) * d2 * d1,
                n1 * d2 <= n2 * d1,
                q1 == q2 + 1,
        ;
        assert(2 * n2 == (2 * q2 + 1) * d2) by (nonlinear_arith)
            requires
                (2 * q1 - 1) * d1 * d2 <= 2 * n1 * d2,
                2 * n2 * d1 <= (2 * q2 + 1) * d2 * d1,
                2 * n1 * d2 == 2 * n2 * d1,
                q1 == q2 + 1,
                2 * n2 <= (2 * q2 + 1) * d2,
                d1 > 0,
        ;
        assert(2 * n1 == (2 * q1 - 1) * d1) by (nonlinear_arith)
            requires
                (2 * q1 - 1) * d1 <= 2 * n1,
                (2 * q1 - 1) * d1 * d2 <= 2 * n1 * d2,
                2 * n2 * d1 <= (2 * q2 + 1) * d2 * d1,
                2 * n1 * d2 == 2 * n2 * d1,
                q1 == q2 + 1,
                d2 > 0,
        ;
        if n2 >= 0 {
            // A non-negative value never sits on its upper window edge.
            assert(2 * n2 < 2 * q2 * d2 + d2);
            assert(2 * q2 * d2 + d2 == (2 * q2 + 1) * d2) by (nonlinear_arith);
            assert(false);
        } else {
            // n2 < 0 makes n1 < 0, which never sits on its lower edge.
            assert(n1 < 0) by (nonlinear_arith)
                requires
                    2 * n1 * d2 == 2 * n2 * d1,
                    n2 < 0,
                    d1 > 0,
                    d2 > 0,
            ;
            assert(2 * q1 * d1 - d1 < 2 * n1);
            assert(2 * q1 * d1 - d1 == (2 * q1 - 1) * d1) by (nonlinear_arith);
            assert(false);
        }
    }
}

/// Rescaling preserves the order of instants: two instants rescaled into one
/// timebase never come back in the opposite order, and equal instants come
/// back equal. This is what keeps `start <= end` through
/// `TimeRange::rescale_to`.
pub proof fn law_rescale_preserves_instant_order(a: Ticks, b: Ticks, to: Rational)
    requires
        a.tb.valid(),
        b.tb.valid(),
        to.valid(),
        to.num != 0,
    ensures
        instant_cmp(a, b) != Ordering::Greater ==> saturating_rescale(a.count, a.tb, to)
            <= saturating_rescale(b.count, b.tb, to),
        instant_cmp(a, b) == Ordering::Equal ==> saturating_rescale(a.count, a.tb, to)
            == saturating_rescale(b.count, b.tb, to),
{
    let n1 = a.count * a.tb.num * to.den;
    let d1 = a.tb.den * to.num;
    let n2 = b.count * b.tb.num * to.den;
    let d2 = b.tb.den * to.num;
    assert(d1 > 0 && d2 > 0) by (nonlinear_arith)
        requires
            d1 == a.tb.den * to.num,
            d2 == b.tb.den * to.num,
            a.tb.den > 0,
            b.tb.den > 0,
            to.num > 0,
    ;
    let k = to.den * to.num;
    assert(k > 0) by (nonlinear_arith)
        requires
            k == to.den * to.num,
            to.den > 0,
            to.num > 0,
    ;
    assert(n1 * d2 == (a.count * a.tb.num * b.tb.den) * k) by (nonlinear_arith)
        requires
            n1 == a.count * a.tb.num * to.den,
            d2 == b.tb.den * to.num,
            k == to.den * to.num,
    ;
    assert(n2 * d1 == (b.count * b.tb.num * a.tb.den) * k) by (nonlinear_arith)
        requires
            n2 == b.count * b.tb.num * to.den,
            d1 == a.tb.den * to.num,
            k == to.den * to.num,
    ;
    if instant_cmp(a, b) != Ordering::Greater {
        assert(n1 * d2 <= n2 * d1) by (nonlinear_arith)
            requires
                a.count * a.tb.num * b.tb.den <= b.count * b.tb.num * a.tb.den,
                n1 * d2 == (a.count * a.tb.num * b.tb.den) * k,
                n2 * d1 == (b.count * b.tb.num * a.tb.den) * k,
                k > 0,
        ;
        lemma_round_half_away_monotone_across(n1, d1, n2, d2);
    }
    if instant_cmp(a, b) == Ordering::Equal {
        assert(n2 * d1 == n1 * d2);
        lemma_round_half_away_monotone_across(n2, d2, n1, d1);
        lemma_round_half_away_monotone_across(n1, d1, n2, d2);
    }
}

/// The two rungs of the rescale ladder agree wherever the checked one has an
/// answer: they differ at the edge, never in the arithmetic.
pub proof fn law_rescale_rungs_agree(pts: int, from: Rational, to: Rational)
    requires
        to.num != 0,
    ensures
        checked_rescale(pts, from, to) matches Some(q) ==> saturating_rescale(pts, from, to) == q,
        checked_rescale(pts, from, to) is None ==> saturating_rescale(pts, from, to) == clamp_i64(
            rescaled(pts, from, to),
        ) && !in_i64(rescaled(pts, from, to)),
{
}

/// Converting a `Duration` to ticks is the same conversion as a rescale out
/// of `NANOS`, rounding included.
pub proof fn law_duration_to_pts_is_a_rescale_out_of_nanos(nanos: int, tb: Rational)
    requires
        tb.valid(),
        tb.num != 0,
    ensures
        duration_ticks(nanos, tb) == rescaled(nanos, Rational { num: 1, den: nanos_per_sec() }, tb),
{
    assert(nanos * 1 * tb.den == nanos * tb.den);
    assert(nanos_per_sec() * tb.num == tb.num * nanos_per_sec());
}

/// Ticks to nanoseconds and back is the identity whenever one tick is a whole
/// number of nanoseconds — every roster timebase down to `NANOS`.
pub proof fn law_pts_to_duration_inverts_on_whole_nanosecond_ticks(pts: int, tb: Rational)
    requires
        tb.valid(),
        tb.num != 0,
        pts >= 0,
        (tb.num * nanos_per_sec()) % tb.den == 0,
    ensures
        duration_ticks(tick_nanos(pts, tb), tb) == pts,
{
    let k = (tb.num * nanos_per_sec()) / tb.den;
    lemma_fundamental_div_mod(tb.num * nanos_per_sec(), tb.den);
    assert(tb.num * nanos_per_sec() == tb.den * k);
    // pts * num * 1e9 is an exact multiple of den.
    assert(pts * tb.num * nanos_per_sec() == (pts * k) * tb.den) by (nonlinear_arith)
        requires
            tb.num * nanos_per_sec() == tb.den * k,
    ;
    lemma_round_half_away_exact(pts * k, tb.den);
    assert(tick_nanos(pts, tb) == pts * k);
    // And pts * k * den == pts * (num * 1e9) is an exact multiple of num * 1e9.
    assert((pts * k) * tb.den == pts * (tb.num * nanos_per_sec())) by (nonlinear_arith)
        requires
            tb.num * nanos_per_sec() == tb.den * k,
    ;
    assert(tb.num * nanos_per_sec() > 0) by (nonlinear_arith)
        requires
            tb.num > 0,
    ;
    lemma_round_half_away_exact(pts, tb.num * nanos_per_sec());
}

/// Ticks to nanoseconds and back is the identity whenever one tick lasts at
/// least a nanosecond: the nanosecond count is off by at most half a
/// nanosecond, which is less than half a tick, so rounding back lands on the
/// count it started from — `HZ_48K` and the NTSC rates included, though their
/// ticks are not whole nanoseconds.
pub proof fn law_pts_to_duration_inverts_on_ticks_of_a_nanosecond_or_more(pts: int, tb: Rational)
    requires
        tb.valid(),
        pts >= 0,
        tb.den <= tb.num * nanos_per_sec(),
    ensures
        duration_ticks(tick_nanos(pts, tb), tb) == pts,
{
    let big = tb.num * nanos_per_sec();
    let d = tb.den;
    let n = pts * tb.num * nanos_per_sec();
    assert(n == pts * big) by (nonlinear_arith)
        requires
            n == pts * tb.num * nanos_per_sec(),
            big == tb.num * nanos_per_sec(),
    ;
    assert(n >= 0) by (nonlinear_arith)
        requires
            n == pts * big,
            pts >= 0,
            big >= d,
            d > 0,
    ;
    let m = tick_nanos(pts, tb);
    lemma_round_half_away_is_nearest(n, d);
    assert(2 * m * d - d <= 2 * n < 2 * m * d + d);
    assert(m * d == m * tb.den);
    if d == big {
        // A tick is exactly a nanosecond: nothing is rounded either way.
        lemma_round_half_away_exact(pts, d);
        assert(m == pts);
        lemma_round_half_away_exact(pts, big);
        assert(pts * d == pts * big);
    } else {
        assert(2 * pts * big - big <= 2 * (m * d) < 2 * pts * big + big) by (nonlinear_arith)
            requires
                2 * m * d - d <= 2 * n < 2 * m * d + d,
                n == pts * big,
                d < big,
                d > 0,
        ;
        assert(m >= 0) by (nonlinear_arith)
            requires
                m == (2 * n + d) / (2 * d),
                n >= 0,
                d > 0,
        ;
        assert(m * d >= 0) by (nonlinear_arith)
            requires
                m >= 0,
                d > 0,
        ;
        lemma_round_half_away_unique(m * d, big, pts);
    }
}

/// A range rescaled into another timebase still runs forwards: both
/// endpoints move by the same monotone rounding, so `start <= end` survives
/// `TimeRange::rescale_to`.
pub proof fn law_range_rescale_keeps_its_order(r: Interval, to: Rational)
    requires
        r.tb.valid(),
        to.valid(),
        to.num != 0,
        r.start <= r.end,
    ensures
        saturating_rescale(r.start, r.tb, to) <= saturating_rescale(r.end, r.tb, to),
{
    let a = Ticks { count: r.start, tb: r.tb };
    let b = Ticks { count: r.end, tb: r.tb };
    assert(r.start * r.tb.num * r.tb.den <= r.end * r.tb.num * r.tb.den) by (nonlinear_arith)
        requires
            r.start <= r.end,
            r.tb.num >= 0,
            r.tb.den > 0,
    ;
    law_rescale_preserves_instant_order(a, b, to);
}

/// A count already in the target timebase is recounted without arithmetic,
/// on both rungs — even in a degenerate timebase, which a rescale refuses.
pub proof fn law_recount_into_the_same_timebase_is_exact(ticks: int, tb: Rational)
    ensures
        checked_recount(ticks, tb, tb) == Some(ticks),
        saturating_recount(ticks, tb, tb) == ticks,
{
}

/// Within one timebase, adding a span and then subtracting it gives back
/// where it started, whenever the sum is an `i64`: span arithmetic there is
/// exact, with no rounding.
pub proof fn law_spans_in_one_timebase_add_and_subtract_exactly(a: Ticks, b: Ticks)
    requires
        a.tb == b.tb,
        in_i64(a.count + b.count),
    ensures
        checked_recount(b.count, b.tb, a.tb) == Some(b.count),
        (a.count + checked_recount(b.count, b.tb, a.tb)->0) - checked_recount(b.count, b.tb, a.tb)->0
            == a.count,
{
}

/// The two rungs of every shift — an instant moved by a span, a span added
/// to or taken from a span — agree wherever the checked one has an answer:
/// the recount feeding them is the same, and clamping a sum that fits is the
/// sum. Where the recount succeeds but the sum leaves `i64`, the saturating
/// rung pins it to the nearer end.
pub proof fn law_shift_rungs_agree(a: Ticks, b: Ticks)
    requires
        b.tb == a.tb || a.tb.num != 0,
    ensures
        ({
            let checked = checked_recount(b.count, b.tb, a.tb);
            let saturating = saturating_recount(b.count, b.tb, a.tb);
            checked is Some ==> {
                let t = checked->0;
                &&& saturating == t
                &&& in_i64(a.count + t) ==> clamp_i64(a.count + saturating) == a.count + t
                &&& in_i64(a.count - t) ==> clamp_i64(a.count - saturating) == a.count - t
                &&& a.count + t > i64::MAX ==> clamp_i64(a.count + saturating) == i64::MAX
                &&& a.count + t < i64::MIN ==> clamp_i64(a.count + saturating) == i64::MIN
            }
        }),
{
    if b.tb != a.tb {
        law_rescale_rungs_agree(b.count, b.tb, a.tb);
    }
}

/// Shifting an instant by a span counted in its own timebase, then asking
/// for the span since the start, gives the span back whenever the shift has
/// an answer.
pub proof fn law_shift_then_measure_gives_the_span(t: Ticks, d: Ticks)
    requires
        d.tb == t.tb,
        in_i64(t.count),
        in_i64(d.count),
        in_i64(t.count + d.count),
    ensures
        checked_recount(d.count, d.tb, t.tb) == Some(d.count),
        clamp_i64((t.count + d.count) - saturating_recount(t.count, t.tb, t.tb)) == d.count,
{
}

/// Shifting forward by a count of ticks and back by the same count returns
/// the starting count, when nothing saturated on the way.
pub proof fn law_duration_shift_round_trip(count: int, shift: int)
    requires
        in_i64(count),
        in_i64(shift),
        in_i64(count + shift),
    ensures
        clamp_i64(clamp_i64(count + shift) - shift) == count,
{
}

/// Every well-known rate reciprocates onto the frame-interval family of the
/// timebase roster, entry for entry and in the same order, so neither roster
/// names a frame rate the other does not.
pub proof fn law_rate_roster_mirrors_the_frame_intervals()
    ensures
        timebase_roster().len() == 27,
        rate_roster().len() == 8,
        forall|i: int|
            0 <= i < 8 ==> #[trigger] rate_roster()[i].1.recip() == timebase_roster()[19 + i].1,
{
    assert forall|i: int| 0 <= i < 8 implies #[trigger] rate_roster()[i].1.recip()
        == timebase_roster()[19 + i].1 by {
        if i == 0 {
        } else if i == 1 {
        } else if i == 2 {
        } else if i == 3 {
        } else if i == 4 {
        } else if i == 5 {
        } else if i == 6 {
        } else {
        }
    }
}

/// The two rungs of the `Duration`-to-ticks ladder agree wherever the
/// checked one has an answer: a count that fits an `i64` is not clamped.
pub proof fn law_duration_to_pts_rungs_agree(nanos: int, tb: Rational)
    requires
        tb.valid(),
        tb.num != 0,
        nanos >= 0,
    ensures
        duration_ticks(nanos, tb) <= i64::MAX ==> clamp_i64(duration_ticks(nanos, tb))
            == duration_ticks(nanos, tb),
{
    assert(nanos * tb.den >= 0) by (nonlinear_arith)
        requires
            nanos >= 0,
            tb.den > 0,
    ;
    assert(tb.num * nanos_per_sec() > 0) by (nonlinear_arith)
        requires
            tb.num > 0,
    ;
    lemma_round_half_up_nonneg(nanos * tb.den, tb.num * nanos_per_sec());
}

/// The two rungs of the ticks-to-`Duration` ladder agree wherever the
/// checked one has an answer: a non-negative count whose span fits a
/// `Duration` is not clamped.
pub proof fn law_pts_to_duration_rungs_agree(pts: int, tb: Rational)
    ensures
        (pts >= 0 && tick_nanos(pts, tb) <= max_duration_nanos()) ==> (if pts < 0 {
            0
        } else if tick_nanos(pts, tb) > max_duration_nanos() {
            max_duration_nanos()
        } else {
            tick_nanos(pts, tb)
        }) == tick_nanos(pts, tb),
{
}

} // verus!
