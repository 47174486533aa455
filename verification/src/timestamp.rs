//! [`Timestamp`] — an instant counted in ticks of a [`Timebase`] — and
//! [`SignedDuration`], the signed span between two of them.

use crate::arith::{
    abs, exact_div, gcd, gcd_u128, gcd_u32, lemma_div_multiples_cancel, lemma_div_split,
    lemma_gcd_divides, lemma_gcd_le, lemma_gcd_positive, saturating_add_i64, saturating_sub_i64,
};
use crate::laws::{law_equal_instants_have_one_canonical_form, lemma_canonical_instant_facts};
use crate::model::{
    canonical_instant, checked_i64, checked_recount, checked_rescale, clamp_i64,
    difference_numerator, duration_ticks, elapsed_duration_nanos, in_i64, instant_cmp, ticks_of,
    saturating_recount, saturating_rescale, Rational, Ticks,
};
use crate::primitives::{
    duration_from_parts, duration_max, duration_nanos, feed_i128_pair, max_duration_nanos,
};
use crate::timebase::Timebase;
use core::cmp::Ordering;
use core::time::Duration;
use vstd::arithmetic::div_mod::{lemma_fundamental_div_mod, lemma_mod_bound};
use vstd::prelude::*;

verus! {

/// A presentation timestamp: a PTS value in units of an associated
/// [`Timebase`].
///
/// Comparison is **value-based**: the same instant compares equal across
/// timebases, so `1000 @ 1/1000` equals `90000 @ 1/90000`, and `Hash` hashes
/// the instant's reduced rational. Under a degenerate `0/den` timebase every
/// PTS names instant zero.
#[derive(Debug, Clone, Copy)]
pub struct Timestamp {
    pts: i64,
    timebase: Timebase,
}

impl View for Timestamp {
    type V = Ticks;

    closed spec fn view(&self) -> Ticks {
        Ticks { count: self.pts as int, tb: self.timebase@ }
    }
}

/// A signed span of time, counted in ticks of an associated [`Timebase`] —
/// the vector to [`Timestamp`]'s point.
///
/// Equality is **structural** on the count and value-based on the timebase;
/// the order by measured length is [`Self::cmp_semantic`], asked for by name.
#[derive(Debug, Default, Clone, Copy, PartialEq, Eq, Hash)]
pub struct SignedDuration {
    ticks: i64,
    timebase: Timebase,
}

impl View for SignedDuration {
    type V = Ticks;

    closed spec fn view(&self) -> Ticks {
        Ticks { count: self.ticks as int, tb: self.timebase@ }
    }
}

/// `ticks` of `from` recounted in `to`, or `None` where the rescale has no
/// answer; identical timebases need no conversion.
fn checked_recount_exec(ticks: i64, from: Timebase, to: Timebase) -> (r: Option<i64>)
    ensures
        r is Some <==> checked_recount(ticks as int, from@, to@) is Some,
        r matches Some(t) ==> checked_recount(ticks as int, from@, to@) == Some(t as int),
{
    if from.is_identical(&to) {
        Some(ticks)
    } else {
        from.checked_rescale(ticks, to)
    }
}

/// The saturating form of [`checked_recount_exec`].
fn saturating_recount_exec(ticks: i64, from: Timebase, to: Timebase) -> (r: i64)
    requires
        from@ == to@ || to@.num != 0,
    ensures
        r == saturating_recount(ticks as int, from@, to@),
{
    if from.is_identical(&to) {
        ticks
    } else {
        from.saturating_rescale(ticks, to)
    }
}

/// `a - b` when it is an `i64`.
fn checked_sub_i64(a: i64, b: i64) -> (r: Option<i64>)
    ensures
        r is Some <==> in_i64(a - b),
        r matches Some(d) ==> d == a - b,
{
    a.checked_sub(b)
}

/// `a + b` when it is an `i64`.
fn checked_add_i64(a: i64, b: i64) -> (r: Option<i64>)
    ensures
        r is Some <==> in_i64(a + b),
        r matches Some(d) ==> d == a + b,
{
    a.checked_add(b)
}

/// The products `p1 * num1 * den2` and `p2 * num2 * den1` that order two
/// tick counts by the time they measure.
fn cross_products(p1: i64, tb1: Timebase, p2: i64, tb2: Timebase) -> (r: (i128, i128))
    ensures
        r.0 == p1 * tb1@.num * tb2@.den,
        r.1 == p2 * tb2@.num * tb1@.den,
{
    let n1 = tb1.num() as i128;
    let d1 = tb1.den() as i128;
    let n2 = tb2.num() as i128;
    let d2 = tb2.den() as i128;
    let a = p1 as i128;
    let b = p2 as i128;
    proof {
        lemma_triple_product_bound(a as int, n1 as int, d2 as int);
        lemma_triple_product_bound(b as int, n2 as int, d1 as int);
    }
    (a * n1 * d2, b * n2 * d1)
}

/// `p * n * d` of an `i64` and two `i32`-sized non-negative factors stays far
/// inside `i128`.
proof fn lemma_triple_product_bound(p: int, n: int, d: int)
    requires
        -0x8000_0000_0000_0000 <= p < 0x8000_0000_0000_0000,
        0 <= n < 0x8000_0000,
        0 <= d < 0x8000_0000,
    ensures
        -0x8000_0000_0000_0000 * 0x8000_0000 <= p * n <= 0x8000_0000_0000_0000 * 0x8000_0000,
        -0x8000_0000_0000_0000 * 0x8000_0000 * 0x8000_0000 <= p * n * d <= 0x8000_0000_0000_0000
            * 0x8000_0000 * 0x8000_0000,
{
    assert(-0x8000_0000_0000_0000 * 0x8000_0000 <= p * n <= 0x8000_0000_0000_0000 * 0x8000_0000)
        by (nonlinear_arith)
        requires
            -0x8000_0000_0000_0000 <= p < 0x8000_0000_0000_0000,
            0 <= n < 0x8000_0000,
    ;
    assert(-0x8000_0000_0000_0000 * 0x8000_0000 * 0x8000_0000 <= p * n * d <= 0x8000_0000_0000_0000
        * 0x8000_0000 * 0x8000_0000) by (nonlinear_arith)
        requires
            -0x8000_0000_0000_0000 * 0x8000_0000 <= p * n <= 0x8000_0000_0000_0000 * 0x8000_0000,
            0 <= d < 0x8000_0000,
    ;
}

/// Under one timebase that spans time, counts compare as the instants do.
proof fn lemma_same_timebase_order(c1: i64, c2: i64, tb: Rational)
    requires
        tb.num > 0,
        tb.den > 0,
    ensures
        (c1 < c2) == (c1 * tb.num * tb.den < c2 * tb.num * tb.den),
        (c1 > c2) == (c1 * tb.num * tb.den > c2 * tb.num * tb.den),
{
    let p1 = c1 as int;
    let p2 = c2 as int;
    let n = tb.num;
    let d = tb.den;
    assert(n * d > 0) by (nonlinear_arith)
        requires
            n > 0,
            d > 0,
    ;
    assert((p1 < p2) == (p1 * (n * d) < p2 * (n * d))) by (nonlinear_arith)
        requires
            n * d > 0,
    ;
    assert((p1 > p2) == (p1 * (n * d) > p2 * (n * d))) by (nonlinear_arith)
        requires
            n * d > 0,
    ;
    assert(p1 * n * d == p1 * (n * d)) by (nonlinear_arith);
    assert(p2 * n * d == p2 * (n * d)) by (nonlinear_arith);
}

/// Whether the identical-timebase fast path applies: one timebase, written
/// identically, that spans time.
fn counts_comparable(tb1: Timebase, tb2: Timebase) -> (r: bool)
    ensures
        r == (tb1@ == tb2@ && tb1@.num != 0),
{
    tb1.is_identical(&tb2) && tb1.num() != 0
}

/// Orders two tick counts by the time they measure: the counts directly under
/// one identical timebase that spans time, a cross-multiply otherwise.
fn semantic_order(p1: i64, tb1: Timebase, p2: i64, tb2: Timebase) -> (r: Ordering)
    ensures
        r == instant_cmp(ticks_of(p1, tb1@), ticks_of(p2, tb2@)),
{
    if counts_comparable(tb1, tb2) {
        proof {
            use_type_invariant(&tb1);
            lemma_same_timebase_order(p1, p2, tb1@);
        }
        if p1 < p2 {
            Ordering::Less
        } else if p1 > p2 {
            Ordering::Greater
        } else {
            Ordering::Equal
        }
    } else {
        let (lhs, rhs) = cross_products(p1, tb1, p2, tb2);
        if lhs < rhs {
            Ordering::Less
        } else if lhs > rhs {
            Ordering::Greater
        } else {
            Ordering::Equal
        }
    }
}

impl Default for Timestamp {
    /// PTS zero in the default `1/1` timebase.
    fn default() -> (r: Self)
        ensures
            r@.count == 0,
            r@.tb == (Rational { num: 1, den: 1 }),
    {
        Timestamp { pts: 0, timebase: Timebase::default() }
    }
}

impl Timestamp {
    /// Creates a new `Timestamp` with the given PTS and timebase.
    pub fn new(pts: i64, timebase: Timebase) -> (r: Self)
        ensures
            r@ == (Ticks { count: pts as int, tb: timebase@ }),
    {
        Timestamp { pts, timebase }
    }

    /// Returns the presentation timestamp, in units of [`Self::timebase`].
    pub fn pts(&self) -> (r: i64)
        ensures
            r == self@.count,
    {
        self.pts
    }

    /// Returns the timebase of the timestamp.
    pub fn timebase(&self) -> (r: Timebase)
        ensures
            r@ == self@.tb,
    {
        self.timebase
    }

    /// Returns `self` with the PTS replaced.
    pub fn with_pts(self, pts: i64) -> (r: Self)
        ensures
            r@ == (Ticks { count: pts as int, tb: self@.tb }),
    {
        Timestamp { pts, timebase: self.timebase }
    }

    /// Sets the PTS in place; returns `self` for chaining.
    pub fn set_pts(&mut self, pts: i64) -> (r: &mut Self)
        ensures
            r@ == (Ticks { count: pts as int, tb: old(self)@.tb }),
            *final(self) == *final(r),
    {
        self.pts = pts;
        self
    }

    /// The same instant in a different timebase, to the nearest tick of
    /// `target` (halfway cases away from zero), clamped to the `i64` range.
    ///
    /// The target must not be degenerate, as for
    /// [`Timebase::saturating_rescale`].
    pub fn rescale_to(self, target: Timebase) -> (r: Self)
        requires
            target@.num != 0,
        ensures
            r@ == (Ticks {
                count: saturating_rescale(self@.count, self@.tb, target@),
                tb: target@,
            }),
    {
        Timestamp { pts: self.timebase.saturating_rescale(self.pts, target), timebase: target }
    }

    /// This instant shifted backward by `d`, in the same timebase, saturating
    /// at `i64::MIN`.
    ///
    /// The timebase must not be degenerate, as for
    /// [`Timebase::saturating_duration_to_pts`].
    pub fn saturating_sub_duration(self, d: Duration) -> (r: Self)
        requires
            self@.tb.num != 0,
        ensures
            r@ == (Ticks {
                count: clamp_i64(self@.count - clamp_i64(duration_ticks(duration_nanos(d) as int, self@.tb))),
                tb: self@.tb,
            }),
    {
        let units = self.timebase.saturating_duration_to_pts(d);
        Timestamp::new(saturating_sub_i64(self.pts, units), self.timebase)
    }

    /// This instant shifted forward by `d`, in the same timebase, saturating
    /// at `i64::MAX`.
    ///
    /// The timebase must not be degenerate, as for
    /// [`Timebase::saturating_duration_to_pts`].
    pub fn saturating_add_duration(self, d: Duration) -> (r: Self)
        requires
            self@.tb.num != 0,
        ensures
            r@ == (Ticks {
                count: clamp_i64(self@.count + clamp_i64(duration_ticks(duration_nanos(d) as int, self@.tb))),
                tb: self@.tb,
            }),
    {
        let units = self.timebase.saturating_duration_to_pts(d);
        Timestamp::new(saturating_add_i64(self.pts, units), self.timebase)
    }

    /// The span from `other` to `self`, counted in `self`'s timebase —
    /// negative when `other` is the later instant. `other` is recounted into
    /// `self`'s timebase first; both steps saturate.
    ///
    /// Where the timebases differ, `self`'s must not be degenerate: the
    /// other count has to be rescaled into it.
    pub fn signed_duration_since(&self, other: &Self) -> (r: SignedDuration)
        requires
            other@.tb == self@.tb || self@.tb.num != 0,
        ensures
            r@ == (Ticks {
                count: clamp_i64(self@.count - saturating_recount(other@.count, other@.tb, self@.tb)),
                tb: self@.tb,
            }),
    {
        let earlier = saturating_recount_exec(other.pts, other.timebase, self.timebase);
        SignedDuration::new(saturating_sub_i64(self.pts, earlier), self.timebase)
    }

    /// The span from `other` to `self` in `self`'s timebase, or `None` where
    /// the recount of `other` or the difference has no `i64` answer.
    pub fn checked_signed_duration_since(&self, other: &Self) -> (r: Option<SignedDuration>)
        ensures
            r is Some <==> (checked_recount(other@.count, other@.tb, self@.tb) matches Some(e)
                && in_i64(self@.count - e)),
            r matches Some(span) ==> span@ == (Ticks {
                count: self@.count - checked_recount(other@.count, other@.tb, self@.tb)->0,
                tb: self@.tb,
            }),
    {
        match checked_recount_exec(other.pts, other.timebase, self.timebase) {
            Some(earlier) => match checked_sub_i64(self.pts, earlier) {
                Some(ticks) => Some(SignedDuration::new(ticks, self.timebase)),
                None => None,
            },
            None => None,
        }
    }

    /// This instant shifted forward by the signed span `d`, or `None` if the
    /// result is not an `i64` PTS in this timebase. `d` is recounted into
    /// this timebase first.
    pub fn checked_add_signed(self, d: SignedDuration) -> (r: Option<Self>)
        ensures
            r is Some <==> (checked_recount(d@.count, d@.tb, self@.tb) matches Some(t) && in_i64(
                self@.count + t,
            )),
            r matches Some(ts) ==> ts@ == (Ticks {
                count: self@.count + checked_recount(d@.count, d@.tb, self@.tb)->0,
                tb: self@.tb,
            }),
    {
        match checked_recount_exec(d.ticks, d.timebase, self.timebase) {
            Some(ticks) => match checked_add_i64(self.pts, ticks) {
                Some(pts) => Some(Self::new(pts, self.timebase)),
                None => None,
            },
            None => None,
        }
    }

    /// This instant shifted forward by `d`, saturating in the recount of `d`
    /// and in the addition.
    ///
    /// Where `d`'s timebase differs, this one must not be degenerate: the
    /// span has to be rescaled into it.
    pub fn saturating_add_signed(self, d: SignedDuration) -> (r: Self)
        requires
            d@.tb == self@.tb || self@.tb.num != 0,
        ensures
            r@ == (Ticks {
                count: clamp_i64(self@.count + saturating_recount(d@.count, d@.tb, self@.tb)),
                tb: self@.tb,
            }),
    {
        let ticks = saturating_recount_exec(d.ticks, d.timebase, self.timebase);
        Self::new(saturating_add_i64(self.pts, ticks), self.timebase)
    }

    /// This instant shifted backward by the signed span `d`, or `None` if the
    /// result is not an `i64` PTS in this timebase.
    pub fn checked_sub_signed(self, d: SignedDuration) -> (r: Option<Self>)
        ensures
            r is Some <==> (checked_recount(d@.count, d@.tb, self@.tb) matches Some(t) && in_i64(
                self@.count - t,
            )),
            r matches Some(ts) ==> ts@ == (Ticks {
                count: self@.count - checked_recount(d@.count, d@.tb, self@.tb)->0,
                tb: self@.tb,
            }),
    {
        match checked_recount_exec(d.ticks, d.timebase, self.timebase) {
            Some(ticks) => match checked_sub_i64(self.pts, ticks) {
                Some(pts) => Some(Self::new(pts, self.timebase)),
                None => None,
            },
            None => None,
        }
    }

    /// This instant shifted backward by `d`, saturating in the recount of `d`
    /// and in the subtraction.
    ///
    /// Where `d`'s timebase differs, this one must not be degenerate: the
    /// span has to be rescaled into it.
    pub fn saturating_sub_signed(self, d: SignedDuration) -> (r: Self)
        requires
            d@.tb == self@.tb || self@.tb.num != 0,
        ensures
            r@ == (Ticks {
                count: clamp_i64(self@.count - saturating_recount(d@.count, d@.tb, self@.tb)),
                tb: self@.tb,
            }),
    {
        let ticks = saturating_recount_exec(d.ticks, d.timebase, self.timebase);
        Self::new(saturating_sub_i64(self.pts, ticks), self.timebase)
    }

    /// Compares two timestamps by the instant they represent, across
    /// timebases, with no rounding.
    pub fn cmp_semantic(&self, other: &Self) -> (r: Ordering)
        ensures
            r == instant_cmp(self@, other@),
    {
        semantic_order(self.pts, self.timebase, other.pts, other.timebase)
    }

    /// The [`Duration`] from PTS zero to `self`, or `None` for a negative
    /// PTS (or, under a degenerate timebase, never).
    pub fn duration(&self) -> (r: Option<Duration>)
        ensures
            r is Some <==> difference_numerator(self@, Ticks { count: 0, tb: self@.tb }) >= 0,
            r matches Some(d) ==> duration_nanos(d) == elapsed_duration_nanos(
                self@,
                Ticks { count: 0, tb: self@.tb },
            ),
    {
        self.duration_since(&Self::new(0, self.timebase))
    }

    /// The elapsed [`Duration`] from `earlier` to `self`, or `None` if
    /// `earlier` is after `self`. The exact rational difference is truncated
    /// once, to whole nanoseconds; whole seconds past `u64::MAX` saturate to
    /// `Duration::MAX`.
    pub fn duration_since(&self, earlier: &Self) -> (r: Option<Duration>)
        ensures
            r is Some <==> difference_numerator(self@, earlier@) >= 0,
            r matches Some(d) ==> duration_nanos(d) == elapsed_duration_nanos(self@, earlier@),
    {
        let self_den = self.timebase.den();
        let earlier_den = earlier.timebase.den();
        let g32 = gcd_u32(self_den as u32, earlier_den as u32);
        proof {
            lemma_gcd_positive(self_den as nat, earlier_den as nat);
            lemma_gcd_divides(self_den as nat, earlier_den as nat);
            lemma_gcd_le(self_den as nat, earlier_den as nat);
        }
        let g = g32 as i128;
        let self_scale = (earlier_den as i128) / g;
        let earlier_scale = (self_den as i128) / g;
        let ghost x = difference_numerator(self@, earlier@);
        let ghost big_den = self@.tb.den * earlier@.tb.den;
        proof {
            let g = g as int;
            lemma_fundamental_div_mod(earlier_den as int, g);
            lemma_fundamental_div_mod(self_den as int, g);
            assert(earlier_den as int == g * self_scale);
            assert(self_den as int == g * earlier_scale);
            assert(0 < self_scale <= earlier_den) by (nonlinear_arith)
                requires
                    earlier_den as int == g * self_scale,
                    g > 0,
                    earlier_den > 0,
            ;
            assert(0 < earlier_scale <= self_den) by (nonlinear_arith)
                requires
                    self_den as int == g * earlier_scale,
                    g > 0,
                    self_den > 0,
            ;
        }
        proof {
            assert((self_den as int) * self_scale < 0x4000_0000_0000_0000) by (nonlinear_arith)
                requires
                    0 < self_den < 0x8000_0000,
                    0 < self_scale <= earlier_den,
                    earlier_den < 0x8000_0000,
            ;
        }
        let common_den = (self_den as i128) * self_scale;
        let (a, b) = self.scaled_instants(earlier, self_scale, earlier_scale);
        let diff_num = a - b;
        proof {
            let g = g as int;
            assert(diff_num * g == x) by (nonlinear_arith)
                requires
                    a == self@.count * self@.tb.num * self_scale,
                    b == earlier@.count * earlier@.tb.num * earlier_scale,
                    earlier@.tb.den == g * self_scale,
                    self@.tb.den == g * earlier_scale,
                    x == self@.count * self@.tb.num * earlier@.tb.den - earlier@.count * earlier@.tb.num
                        * self@.tb.den,
                    diff_num == a - b,
            ;
            assert(common_den * g == big_den) by (nonlinear_arith)
                requires
                    common_den == self@.tb.den * self_scale,
                    earlier@.tb.den == g * self_scale,
                    big_den == self@.tb.den * earlier@.tb.den,
            ;
            assert(common_den > 0) by (nonlinear_arith)
                requires
                    common_den == self@.tb.den * self_scale,
                    self@.tb.den > 0,
                    self_scale > 0,
            ;
            assert(common_den < 0x4000_0000_0000_0000) by (nonlinear_arith)
                requires
                    common_den == self@.tb.den * self_scale,
                    self@.tb.den < 0x8000_0000,
                    self_scale <= earlier@.tb.den,
                    earlier@.tb.den < 0x8000_0000,
                    self_scale > 0,
            ;
            assert((diff_num < 0) == (x < 0)) by (nonlinear_arith)
                requires
                    diff_num * g == x,
                    g > 0,
            ;
        }
        if diff_num < 0 {
            return None;
        }
        let secs = diff_num / common_den;
        proof {
            let g = g as int;
            lemma_div_multiples_cancel(diff_num as int, common_den as int, g);
            assert(secs == x / big_den);
            lemma_div_split(diff_num as int, common_den as int, 1_000_000_000);
            lemma_div_multiples_cancel(diff_num * 1_000_000_000, common_den as int, g);
            assert(diff_num * 1_000_000_000 * g == x * 1_000_000_000) by (nonlinear_arith)
                requires
                    diff_num * g == x,
            ;
        }
        if secs > u64::MAX as i128 {
            return Some(duration_max());
        }
        let rem = diff_num % common_den;
        proof {
            lemma_mod_bound(diff_num as int, common_den as int);
        }
        let nanos = (rem * 1_000_000_000 / common_den) as u32;
        proof {
            assert(((rem * 1_000_000_000) as int) / (common_den as int) < 1_000_000_000) by (nonlinear_arith)
                requires
                    0 <= rem < common_den,
                    common_den > 0,
            ;
        }
        Some(duration_from_parts(secs as u64, nanos))
    }

    /// `pts * num * scale` for `self` and `earlier`, the two instants over a
    /// common denominator.
    fn scaled_instants(&self, earlier: &Self, self_scale: i128, earlier_scale: i128) -> (r: (i128, i128))
        requires
            0 < self_scale < 0x8000_0000,
            0 < earlier_scale < 0x8000_0000,
        ensures
            r.0 == self@.count * self@.tb.num * self_scale,
            r.1 == earlier@.count * earlier@.tb.num * earlier_scale,
            -0x8000_0000_0000_0000 * 0x8000_0000 * 0x8000_0000 <= r.0 <= 0x8000_0000_0000_0000 * 0x8000_0000
                * 0x8000_0000,
            -0x8000_0000_0000_0000 * 0x8000_0000 * 0x8000_0000 <= r.1 <= 0x8000_0000_0000_0000 * 0x8000_0000
                * 0x8000_0000,
    {
        let sn = self.timebase.num() as i128;
        let en = earlier.timebase.num() as i128;
        let sp = self.pts as i128;
        let ep = earlier.pts as i128;
        proof {
            lemma_triple_product_bound(sp as int, sn as int, self_scale as int);
            lemma_triple_product_bound(ep as int, en as int, earlier_scale as int);
        }
        (sp * sn * self_scale, ep * en * earlier_scale)
    }

    /// The instant as a rational in lowest terms, `(pts * num, den)` with
    /// their gcd divided out — what `Hash` hashes.
    pub fn canonical_form(&self) -> (r: (i128, i128))
        ensures
            r.0 == canonical_instant(self@).0,
            r.1 == canonical_instant(self@).1,
    {
        let num = self.timebase.num() as i128;
        let den = self.timebase.den();
        let p = self.pts as i128;
        proof {
            lemma_triple_product_bound(p as int, num as int, 1);
        }
        let n = p * num;
        let magnitude: u128 = if n >= 0 {
            n as u128
        } else {
            (-n) as u128
        };
        let g = gcd_u128(magnitude, den as u128);
        proof {
            lemma_gcd_positive(magnitude as nat, den as nat);
            lemma_gcd_le(magnitude as nat, den as nat);
            assert(abs(n as int) == magnitude);
        }
        let gi = g as i128;
        let reduced_num = if n >= 0 {
            n / gi
        } else {
            -((-n) / gi)
        };
        proof {
            assert(reduced_num == exact_div(n as int, gi as int));
        }
        (reduced_num, (den as i128) / gi)
    }
}

impl PartialEq for Timestamp {
    fn eq(&self, other: &Self) -> (r: bool) {
        matches!(self.cmp_semantic(other), Ordering::Equal)
    }
}

impl vstd::std_specs::cmp::PartialEqSpecImpl for Timestamp {
    open spec fn obeys_eq_spec() -> bool {
        true
    }

    open spec fn eq_spec(&self, other: &Self) -> bool {
        instant_cmp(self@, other@) == Ordering::Equal
    }
}

impl Eq for Timestamp {}

impl PartialOrd for Timestamp {
    fn partial_cmp(&self, other: &Self) -> (r: Option<Ordering>) {
        Some(self.cmp_semantic(other))
    }
}

impl vstd::std_specs::cmp::PartialOrdSpecImpl for Timestamp {
    open spec fn obeys_partial_cmp_spec() -> bool {
        true
    }

    open spec fn partial_cmp_spec(&self, other: &Self) -> Option<Ordering> {
        Some(instant_cmp(self@, other@))
    }
}

impl Timestamp {
    /// What hashing this timestamp feeds the hasher: the instant as a
    /// rational of seconds in lowest terms, numerator then denominator.
    pub open spec fn hash_key(self) -> (i128, i128) {
        (canonical_instant(self@).0 as i128, canonical_instant(self@).1 as i128)
    }
}

/// Hashing agrees with `==` and tells different instants apart: two
/// timestamps feed the hasher the same key exactly when they name the same
/// instant — one NTSC frame written as `1 @ 1001/30000` or as
/// `1001 @ 1/30000` hashes alike, in any timebase.
pub proof fn law_equal_timestamps_hash_alike(a: Timestamp, b: Timestamp)
    requires
        a@.tb.valid(),
        b@.tb.valid(),
    ensures
        instant_cmp(a@, b@) == Ordering::Equal <==> a.hash_key() == b.hash_key(),
{
    lemma_hash_key_is_canonical(a);
    lemma_hash_key_is_canonical(b);
    if instant_cmp(a@, b@) == Ordering::Equal {
        law_equal_instants_have_one_canonical_form(a@, b@);
    }
    if a.hash_key() == b.hash_key() {
        let ga = lemma_canonical_instant_facts(a@);
        let gb = lemma_canonical_instant_facts(b@);
        let c = canonical_instant(a@);
        assert(canonical_instant(b@) == c);
        let na = a@.count * a@.tb.num;
        let nb = b@.count * b@.tb.num;
        assert(na * b@.tb.den == nb * a@.tb.den) by (nonlinear_arith)
            requires
                c.0 * ga == na,
                c.1 * ga == a@.tb.den,
                c.0 * gb == nb,
                c.1 * gb == b@.tb.den,
        ;
        assert(a@.count * a@.tb.num * b@.tb.den == b@.count * b@.tb.num * a@.tb.den);
    }
}

/// The key a timestamp hashes is its canonical instant, which fits `i128`.
proof fn lemma_hash_key_is_canonical(a: Timestamp)
    requires
        a@.tb.valid(),
    ensures
        a.hash_key().0 == canonical_instant(a@).0,
        a.hash_key().1 == canonical_instant(a@).1,
{
    let g = lemma_canonical_instant_facts(a@);
    let c = canonical_instant(a@);
    let n = a@.count * a@.tb.num;
    let count = a.pts as int;
    let num = a.timebase@.num;
    assert(-0x8000_0000_0000_0000 <= count <= 0x7FFF_FFFF_FFFF_FFFF);
    a.timebase.lemma_view_fits();
    assert(0 <= num <= 0x7FFF_FFFF);
    assert(-0x4000_0000_0000_0000_0000_0000 <= n <= 0x4000_0000_0000_0000_0000_0000)
        by (nonlinear_arith)
        requires
            n == count * num,
            -0x8000_0000_0000_0000 <= count <= 0x7FFF_FFFF_FFFF_FFFF,
            0 <= num <= 0x7FFF_FFFF,
    ;
    assert(-0x4000_0000_0000_0000_0000_0000 <= c.0 <= 0x4000_0000_0000_0000_0000_0000)
        by (nonlinear_arith)
        requires
            c.0 * g == n,
            g > 0,
            -0x4000_0000_0000_0000_0000_0000 <= n <= 0x4000_0000_0000_0000_0000_0000,
    ;
    assert(0 < c.1 <= a@.tb.den) by (nonlinear_arith)
        requires
            c.1 * g == a@.tb.den,
            g > 0,
            c.1 > 0,
    ;
    assert(a@.tb.den <= 0x7FFF_FFFF);
}

impl core::hash::Hash for Timestamp {
    /// Hashes the instant's reduced rational, so equal instants hash alike:
    /// the hasher is fed [`Timestamp::hash_key`] and nothing else.
    fn hash<H: core::hash::Hasher>(&self, state: &mut H)
        ensures
            exists|through: &mut H|
                {
                    &&& #[trigger] call_ensures(
                        feed_i128_pair::<H>,
                        (&self.hash_key().0, &self.hash_key().1, through),
                        (),
                    )
                    &&& mut_ref_current(through) == *old(state)
                    &&& mut_ref_future(through) == *final(state)
                },
    {
        let (n, d) = self.canonical_form();
        assert(n == self.hash_key().0 && d == self.hash_key().1);
        feed_i128_pair(&n, &d, state);
    }
}

impl SignedDuration {
    /// Creates a span of `ticks` ticks of `timebase`.
    pub fn new(ticks: i64, timebase: Timebase) -> (r: Self)
        ensures
            r@ == (Ticks { count: ticks as int, tb: timebase@ }),
    {
        SignedDuration { ticks, timebase }
    }

    /// Returns the tick count — negative when the span points backwards.
    pub fn ticks(&self) -> (r: i64)
        ensures
            r == self@.count,
    {
        self.ticks
    }

    /// Returns the timebase the span is counted in.
    pub fn timebase(&self) -> (r: Timebase)
        ensures
            r@ == self@.tb,
    {
        self.timebase
    }

    /// Whether the count is negative.
    pub fn is_negative(&self) -> (r: bool)
        ensures
            r == (self@.count < 0),
    {
        self.ticks < 0
    }

    /// Whether the count is positive.
    pub fn is_positive(&self) -> (r: bool)
        ensures
            r == (self@.count > 0),
    {
        self.ticks > 0
    }

    /// Whether the count is zero.
    pub fn is_zero(&self) -> (r: bool)
        ensures
            r == (self@.count == 0),
    {
        self.ticks == 0
    }

    /// The same span pointing the other way, or `None` at `i64::MIN` ticks.
    pub fn checked_neg(self) -> (r: Option<Self>)
        ensures
            r is Some <==> self@.count != i64::MIN,
            r matches Some(s) ==> s@ == (Ticks { count: -self@.count, tb: self@.tb }),
    {
        if self.ticks == i64::MIN {
            None
        } else {
            Some(Self::new(-self.ticks, self.timebase))
        }
    }

    /// The same span pointing the other way, clamping `i64::MIN` ticks to
    /// `i64::MAX`.
    pub fn saturating_neg(self) -> (r: Self)
        ensures
            r@ == (Ticks { count: clamp_i64(-self@.count), tb: self@.tb }),
    {
        if self.ticks == i64::MIN {
            Self::new(i64::MAX, self.timebase)
        } else {
            Self::new(-self.ticks, self.timebase)
        }
    }

    /// The span with its direction dropped, or `None` at `i64::MIN` ticks.
    pub fn checked_abs(self) -> (r: Option<Self>)
        ensures
            r is Some <==> self@.count != i64::MIN,
            r matches Some(s) ==> s@ == (Ticks { count: abs(self@.count) as int, tb: self@.tb }),
    {
        if self.ticks == i64::MIN {
            None
        } else if self.ticks < 0 {
            Some(Self::new(-self.ticks, self.timebase))
        } else {
            Some(self)
        }
    }

    /// The span with its direction dropped, clamping `i64::MIN` ticks to
    /// `i64::MAX`.
    pub fn saturating_abs(self) -> (r: Self)
        ensures
            r@ == (Ticks { count: clamp_i64(abs(self@.count) as int), tb: self@.tb }),
    {
        if self.ticks == i64::MIN {
            Self::new(i64::MAX, self.timebase)
        } else if self.ticks < 0 {
            Self::new(-self.ticks, self.timebase)
        } else {
            self
        }
    }

    /// The sum of two spans, counted in `self`'s timebase, or `None` if that
    /// count is not an `i64` (or `rhs` cannot be recounted into it).
    pub fn checked_add(self, rhs: Self) -> (r: Option<Self>)
        ensures
            r is Some <==> (checked_recount(rhs@.count, rhs@.tb, self@.tb) matches Some(t)
                && in_i64(self@.count + t)),
            r matches Some(s) ==> s@ == (Ticks {
                count: self@.count + checked_recount(rhs@.count, rhs@.tb, self@.tb)->0,
                tb: self@.tb,
            }),
    {
        match checked_recount_exec(rhs.ticks, rhs.timebase, self.timebase) {
            Some(ticks) => match checked_add_i64(self.ticks, ticks) {
                Some(sum) => Some(Self::new(sum, self.timebase)),
                None => None,
            },
            None => None,
        }
    }

    /// The sum of two spans in `self`'s timebase, saturating in the recount
    /// of `rhs` and in the addition.
    ///
    /// Where the timebases differ, `self`'s must not be degenerate: the
    /// other count has to be rescaled into it.
    pub fn saturating_add(self, rhs: Self) -> (r: Self)
        requires
            rhs@.tb == self@.tb || self@.tb.num != 0,
        ensures
            r@ == (Ticks {
                count: clamp_i64(self@.count + saturating_recount(rhs@.count, rhs@.tb, self@.tb)),
                tb: self@.tb,
            }),
    {
        let ticks = saturating_recount_exec(rhs.ticks, rhs.timebase, self.timebase);
        Self::new(saturating_add_i64(self.ticks, ticks), self.timebase)
    }

    /// The difference of two spans, counted in `self`'s timebase, or `None`
    /// if that count is not an `i64`.
    pub fn checked_sub(self, rhs: Self) -> (r: Option<Self>)
        ensures
            r is Some <==> (checked_recount(rhs@.count, rhs@.tb, self@.tb) matches Some(t)
                && in_i64(self@.count - t)),
            r matches Some(s) ==> s@ == (Ticks {
                count: self@.count - checked_recount(rhs@.count, rhs@.tb, self@.tb)->0,
                tb: self@.tb,
            }),
    {
        match checked_recount_exec(rhs.ticks, rhs.timebase, self.timebase) {
            Some(ticks) => match checked_sub_i64(self.ticks, ticks) {
                Some(difference) => Some(Self::new(difference, self.timebase)),
                None => None,
            },
            None => None,
        }
    }

    /// The difference of two spans in `self`'s timebase, saturating.
    ///
    /// Where the timebases differ, `self`'s must not be degenerate: the
    /// other count has to be rescaled into it.
    pub fn saturating_sub(self, rhs: Self) -> (r: Self)
        requires
            rhs@.tb == self@.tb || self@.tb.num != 0,
        ensures
            r@ == (Ticks {
                count: clamp_i64(self@.count - saturating_recount(rhs@.count, rhs@.tb, self@.tb)),
                tb: self@.tb,
            }),
    {
        let ticks = saturating_recount_exec(rhs.ticks, rhs.timebase, self.timebase);
        Self::new(saturating_sub_i64(self.ticks, ticks), self.timebase)
    }

    /// The same span counted in `target`, to the nearest tick, clamped.
    ///
    /// The target must not be degenerate, as for
    /// [`Timebase::saturating_rescale`].
    pub fn rescale_to(self, target: Timebase) -> (r: Self)
        requires
            target@.num != 0,
        ensures
            r@ == (Ticks {
                count: saturating_rescale(self@.count, self@.tb, target@),
                tb: target@,
            }),
    {
        SignedDuration { ticks: self.timebase.saturating_rescale(self.ticks, target), timebase: target }
    }

    /// The same span counted in `target`, or `None` where the rescale has no
    /// `i64` answer or the target is degenerate.
    pub fn checked_rescale_to(self, target: Timebase) -> (r: Option<Self>)
        ensures
            r is Some <==> checked_rescale(self@.count, self@.tb, target@) is Some,
            r matches Some(s) ==> s@ == (Ticks {
                count: checked_rescale(self@.count, self@.tb, target@)->0,
                tb: target@,
            }),
    {
        match self.timebase.checked_rescale(self.ticks, target) {
            Some(ticks) => Some(SignedDuration { ticks, timebase: target }),
            None => None,
        }
    }

    /// Compares two spans by the time they measure, across timebases, with no
    /// rounding.
    pub fn cmp_semantic(&self, other: &Self) -> (r: Ordering)
        ensures
            r == instant_cmp(self@, other@),
    {
        semantic_order(self.ticks, self.timebase, other.ticks, other.timebase)
    }
}

} // verus!
