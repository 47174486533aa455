//! The mathematical model the public contracts are stated in: rationals as
//! integer pairs, instants and spans as tick counts of a rational, and the
//! conversions between them as exact integer formulas.

use crate::arith::{abs, exact_div, gcd, round_half_away};
use core::cmp::Ordering;
use vstd::prelude::*;

verus! {

/// Nanoseconds in a second.
pub open spec fn nanos_per_sec() -> int {
    1_000_000_000
}

/// A rational `num / den`, as two unbounded integers.
pub struct Rational {
    pub num: int,
    pub den: int,
}

impl Rational {
    /// What every timebase and rate satisfies: a non-negative numerator over a
    /// positive denominator.
    pub open spec fn valid(self) -> bool {
        self.num >= 0 && self.den > 0
    }

    /// The two halves swapped.
    pub open spec fn recip(self) -> Rational {
        Rational { num: self.den, den: self.num }
    }

    /// The same rational in lowest terms.
    pub open spec fn reduced(self) -> Rational {
        let g = gcd(self.num as nat, self.den as nat) as int;
        Rational { num: self.num / g, den: self.den / g }
    }

    /// Already in lowest terms.
    pub open spec fn is_lowest(self) -> bool {
        gcd(self.num as nat, self.den as nat) == 1
    }
}

/// A count of ticks of a timebase: an instant (counted from zero) or a signed
/// span.
pub struct Ticks {
    pub count: int,
    pub tb: Rational,
}

/// A half-open range `[start, end)` of ticks of one timebase.
pub struct Interval {
    pub start: int,
    pub end: int,
    pub tb: Rational,
}

/// Value equality of two rationals with positive denominators.
pub open spec fn value_eq(a: Rational, b: Rational) -> bool {
    a.num * b.den == b.num * a.den
}

/// The three-way comparison of two integers.
pub open spec fn cmp_int(a: int, b: int) -> Ordering {
    if a < b {
        Ordering::Less
    } else if a > b {
        Ordering::Greater
    } else {
        Ordering::Equal
    }
}

/// Value order of two rationals with positive denominators, by
/// cross-multiplication.
pub open spec fn value_cmp(a: Rational, b: Rational) -> Ordering {
    cmp_int(a.num * b.den, b.num * a.den)
}

/// Whether an integer is an `i64`.
pub open spec fn in_i64(x: int) -> bool {
    i64::MIN <= x <= i64::MAX
}

/// The nearest `i64` to `x`.
pub open spec fn clamp_i64(x: int) -> int {
    if x > i64::MAX {
        i64::MAX as int
    } else if x < i64::MIN {
        i64::MIN as int
    } else {
        x
    }
}

/// `Some(x)` when `x` is an `i64`, else `None`.
pub open spec fn checked_i64(x: int) -> Option<int> {
    if in_i64(x) {
        Some(x)
    } else {
        None
    }
}

/// A tick count of `from` recounted in ticks of `to`: the exact quotient
/// `pts * from / to`, rounded to nearest with halfway cases away from zero.
pub open spec fn rescaled(pts: int, from: Rational, to: Rational) -> int {
    round_half_away(pts * from.num * to.den, from.den * to.num)
}

/// The checked rescale: `None` for a degenerate target (zero numerator) or a
/// quotient outside `i64`.
pub open spec fn checked_rescale(pts: int, from: Rational, to: Rational) -> Option<int> {
    if to.num == 0 {
        None
    } else {
        checked_i64(rescaled(pts, from, to))
    }
}

/// The saturating rescale, for a target with a non-zero numerator.
pub open spec fn saturating_rescale(pts: int, from: Rational, to: Rational) -> int {
    clamp_i64(rescaled(pts, from, to))
}

/// A count recounted into another timebase, with no arithmetic at all when the
/// two are written identically.
pub open spec fn checked_recount(ticks: int, from: Rational, to: Rational) -> Option<int> {
    if from == to {
        Some(ticks)
    } else {
        checked_rescale(ticks, from, to)
    }
}

/// The saturating form of [`checked_recount`].
pub open spec fn saturating_recount(ticks: int, from: Rational, to: Rational) -> int {
    if from == to {
        ticks
    } else {
        saturating_rescale(ticks, from, to)
    }
}

/// A span of `nanos` nanoseconds counted in ticks of `tb`, rounded to nearest
/// with halfway cases up. Meaningful for `tb.num > 0`.
pub open spec fn duration_ticks(nanos: int, tb: Rational) -> int {
    round_half_away(nanos * tb.den, tb.num * nanos_per_sec())
}

/// `pts` ticks of `tb` in nanoseconds, rounded to nearest with halfway cases
/// away from zero.
pub open spec fn tick_nanos(pts: int, tb: Rational) -> int {
    round_half_away(pts * tb.num * nanos_per_sec(), tb.den)
}

/// `count @ tb` as a model value.
pub open spec fn ticks_of(count: i64, tb: Rational) -> Ticks {
    Ticks { count: count as int, tb }
}

/// The order of two instants (or two spans) by the time they measure.
pub open spec fn instant_cmp(a: Ticks, b: Ticks) -> Ordering {
    cmp_int(a.count * a.tb.num * b.tb.den, b.count * b.tb.num * a.tb.den)
}

/// `a - b` as a numerator over `a.tb.den * b.tb.den` seconds.
pub open spec fn difference_numerator(a: Ticks, b: Ticks) -> int {
    a.count * a.tb.num * b.tb.den - b.count * b.tb.num * a.tb.den
}

/// The exact difference `a - b` in whole nanoseconds, truncated once.
/// Meaningful when the difference is non-negative.
pub open spec fn elapsed_nanos(a: Ticks, b: Ticks) -> int {
    difference_numerator(a, b) * nanos_per_sec() / (a.tb.den * b.tb.den)
}

/// The whole seconds of that difference.
pub open spec fn elapsed_secs(a: Ticks, b: Ticks) -> int {
    difference_numerator(a, b) / (a.tb.den * b.tb.den)
}

/// What `Duration` a non-negative difference `a - b` is reported as: its
/// whole nanoseconds, or `Duration::MAX` once its whole seconds pass
/// `u64::MAX`.
pub open spec fn elapsed_duration_nanos(a: Ticks, b: Ticks) -> int {
    if elapsed_secs(a, b) > u64::MAX {
        0xFFFF_FFFF_FFFF_FFFFint * 1_000_000_000 + 999_999_999
    } else {
        elapsed_nanos(a, b)
    }
}

/// The instant `a` as a rational in lowest terms: the numerator
/// `count * num` and the denominator `den` with their gcd divided out.
pub open spec fn canonical_instant(a: Ticks) -> (int, int) {
    let n = a.count * a.tb.num;
    let g = gcd(abs(n), a.tb.den as nat) as int;
    (exact_div(n, g), a.tb.den / g)
}

} // verus!
