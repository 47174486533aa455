//! [`Timebase`] — a rational number of seconds per tick — and the rescale
//! ladder that converts tick counts between timebases and to and from
//! [`Duration`].

use crate::arith::{
    div_round_half_away, div_round_half_up, gcd, gcd_u32, lemma_divided_by_gcd_is_lowest,
    lemma_gcd_le, lemma_round_half_away_exact, lemma_round_half_away_monotone, round_half_away,
};
use crate::laws::{
    law_equal_timebases_reduce_alike, law_reduce_canonicalizes, law_value_eq_is_an_equivalence,
};
use crate::model::{
    checked_rescale, clamp_i64, duration_ticks, rescaled, saturating_rescale, tick_nanos,
    value_cmp, value_eq, Rational,
};
use crate::primitives::{
    duration_as_nanos, duration_from_parts, duration_max, duration_nanos, duration_zero,
    feed_i32_pair, max_duration_nanos,
};
use core::time::Duration;
use vstd::arithmetic::div_mod::{lemma_div_pos_is_pos, lemma_fundamental_div_mod, lemma_mod_bound};
use core::cmp::Ordering;
use vstd::prelude::*;

verus! {

/// A media timebase represented as a rational number: a non-negative numerator
/// over a strictly positive denominator — seconds per tick.
///
/// Typical values: `1/1000` for millisecond PTS, `1/90000` for MPEG-TS,
/// `1/48000` for audio samples.
///
/// Both halves are `i32`, the width and sign of FFmpeg's `AVRational`, so
/// every value round-trips into one. A zero numerator is legal: a degenerate
/// timebase, valid to construct and to compare, but not a rescale target.
///
/// Comparison is **value-based**: `1/2` equals `2/4`, and `1/3 < 2/3 < 1/1`.
/// `Hash` hashes the reduced form, so equal rationals hash the same.
#[derive(Debug, Clone, Copy)]
pub struct Timebase {
    num: i32,
    den: i32,
}

impl View for Timebase {
    type V = Rational;

    closed spec fn view(&self) -> Rational {
        Rational { num: self.num as int, den: self.den as int }
    }
}

impl Timebase {
    /// `num >= 0` and `den > 0`, for every reachable value.
    #[verifier::type_invariant]
    pub open spec fn inv(self) -> bool {
        self@.valid()
    }

    /// The constructor every other one routes through.
    fn from_parts(num: i32, den: i32) -> (r: Self)
        requires
            num >= 0,
            den > 0,
        ensures
            r@ == (Rational { num: num as int, den: den as int }),
    {
        Timebase { num, den }
    }

    /// Creates a new `Timebase` with the given numerator and denominator.
    ///
    /// The numerator must not be negative and the denominator must be
    /// positive; [`Self::try_new`] is the total spelling.
    pub fn new(num: i32, den: i32) -> (r: Self)
        requires
            num >= 0,
            den > 0,
        ensures
            r@ == (Rational { num: num as int, den: den as int }),
    {
        Self::from_parts(num, den)
    }

    /// Fallible variant of [`Self::new`]: `None` when `num < 0` or
    /// `den <= 0`. Accepts `num == 0` (a degenerate timebase).
    pub fn try_new(num: i32, den: i32) -> (r: Option<Self>)
        ensures
            r is Some <==> (num >= 0 && den > 0),
            r matches Some(tb) ==> tb@ == (Rational { num: num as int, den: den as int }),
    {
        if num >= 0 && den > 0 {
            Some(Self::from_parts(num, den))
        } else {
            None
        }
    }

    /// Returns the numerator.
    pub fn num(&self) -> (r: i32)
        ensures
            r == self@.num,
            r >= 0,
    {
        proof {
            use_type_invariant(self);
        }
        self.num
    }

    /// Returns the denominator, which is always positive.
    pub fn den(&self) -> (r: i32)
        ensures
            r == self@.den,
            r > 0,
    {
        proof {
            use_type_invariant(self);
        }
        self.den
    }

    /// Returns `self` with the numerator replaced.
    pub fn with_num(self, num: i32) -> (r: Self)
        requires
            num >= 0,
        ensures
            r@ == (Rational { num: num as int, den: self@.den }),
    {
        proof {
            use_type_invariant(&self);
        }
        Self::from_parts(num, self.den)
    }

    /// Returns `self` with the denominator replaced.
    pub fn with_den(self, den: i32) -> (r: Self)
        requires
            den > 0,
        ensures
            r@ == (Rational { num: self@.num, den: den as int }),
    {
        proof {
            use_type_invariant(&self);
        }
        Self::from_parts(self.num, den)
    }

    /// Sets the numerator in place; returns `self` for chaining.
    pub fn set_num(&mut self, num: i32) -> (r: &mut Self)
        requires
            num >= 0,
        ensures
            r@ == (Rational { num: num as int, den: old(self)@.den }),
            *final(self) == *final(r),
    {
        proof {
            use_type_invariant(&*self);
        }
        *self = Self::from_parts(num, self.den);
        self
    }

    /// Sets the denominator in place; returns `self` for chaining.
    pub fn set_den(&mut self, den: i32) -> (r: &mut Self)
        requires
            den > 0,
        ensures
            r@ == (Rational { num: old(self)@.num, den: den as int }),
            *final(self) == *final(r),
    {
        proof {
            use_type_invariant(&*self);
        }
        *self = Self::from_parts(self.num, den);
        self
    }

    /// Reduces the rational to lowest terms: `2/4` becomes `1/2`, `0/3`
    /// becomes `0/1`. The value does not move.
    pub fn reduce(self) -> (r: Self)
        ensures
            r@ == self@.reduced(),
            r@.is_lowest(),
            value_eq(r@, self@),
    {
        proof {
            use_type_invariant(&self);
        }
        let g = gcd_u32(self.num as u32, self.den as u32);
        proof {
            lemma_divided_by_gcd_is_lowest(self.num as nat, self.den as nat);
            lemma_gcd_le(self.num as nat, self.den as nat);
            let gi = g as int;
            let a = self.num as int / gi;
            let b = self.den as int / gi;
            assert(self.num as int == a * gi);
            assert(self.den as int == b * gi);
            assert(b > 0) by (nonlinear_arith)
                requires
                    self.den as int == b * gi,
                    gi > 0,
                    self.den > 0,
            ;
            assert(a >= 0) by (nonlinear_arith)
                requires
                    self.num as int == a * gi,
                    gi > 0,
                    self.num >= 0,
            ;
            assert(a * (self.den as int) == (self.num as int) * b) by (nonlinear_arith)
                requires
                    self.num as int == a * gi,
                    self.den as int == b * gi,
            ;
        }
        let gi = g as i32;
        Self::from_parts(self.num / gi, self.den / gi)
    }

    /// Whether the rational is already in lowest terms — `true` for `1/2`
    /// and `0/1`, `false` for `2/4` and `0/3`.
    pub fn is_reduced(&self) -> (r: bool)
        ensures
            r == self@.is_lowest(),
    {
        proof {
            use_type_invariant(self);
        }
        gcd_u32(self.num as u32, self.den as u32) == 1
    }

    /// Whether two timebases are the same rational *as written*: `1/1000`
    /// and `2/2000` are equal but not identical.
    pub fn is_identical(&self, other: &Self) -> (r: bool)
        ensures
            r == (self@ == other@),
    {
        self.num == other.num && self.den == other.den
    }

    /// The reciprocal — `1/24` becomes `24/1` — or `None` when the numerator
    /// is zero and no reciprocal exists.
    pub fn checked_recip(self) -> (r: Option<Self>)
        ensures
            r is None <==> self@.num == 0,
            r matches Some(tb) ==> tb@ == self@.recip(),
    {
        proof {
            use_type_invariant(&self);
        }
        if self.num == 0 {
            None
        } else {
            Some(Self::from_parts(self.den, self.num))
        }
    }

    /// The products `pts * num * to.den` and `den * to.num` whose rounded
    /// quotient a rescale is.
    fn rescale_operands(&self, pts: i64, to: Self) -> (r: (i128, i128))
        ensures
            r.0 == pts * self@.num * to@.den,
            r.1 == self@.den * to@.num,
            -0x2000_0000_0000_0000_0000_0000_0000_0000 < r.0 < 0x2000_0000_0000_0000_0000_0000_0000_0000,
            0 <= r.1 < 0x4000_0000_0000_0000,
    {
        proof {
            use_type_invariant(self);
            use_type_invariant(&to);
        }
        let p = pts as i128;
        let fnum = self.num as i128;
        let tden = to.den as i128;
        let fden = self.den as i128;
        let tnum = to.num as i128;
        proof {
            assert(-0x8000_0000_0000_0000 * 0x8000_0000 <= p * fnum <= 0x8000_0000_0000_0000 * 0x8000_0000) by (nonlinear_arith)
                requires
                    -0x8000_0000_0000_0000 <= p < 0x8000_0000_0000_0000,
                    0 <= fnum < 0x8000_0000,
            ;
            assert(-0x8000_0000_0000_0000 * 0x8000_0000 * 0x8000_0000 < p * fnum * tden < 0x8000_0000_0000_0000 * 0x8000_0000 * 0x8000_0000) by (nonlinear_arith)
                requires
                    -0x8000_0000_0000_0000 <= p < 0x8000_0000_0000_0000,
                    0 <= fnum < 0x8000_0000,
                    0 < tden < 0x8000_0000,
            ;
            assert(0 <= fden * tnum < 0x8000_0000 * 0x8000_0000) by (nonlinear_arith)
                requires
                    0 < fden < 0x8000_0000,
                    0 <= tnum < 0x8000_0000,
            ;
        }
        (p * fnum * tden, fden * tnum)
    }

    /// The exact quotient of a rescale, rounded, before either rung decides
    /// what to do with one that does not fit an `i64`.
    fn rescaled(&self, pts: i64, to: Self) -> (q: i128)
        requires
            to@.num != 0,
        ensures
            q == rescaled(pts as int, self@, to@),
    {
        proof {
            use_type_invariant(self);
            use_type_invariant(&to);
        }
        let (n, d) = self.rescale_operands(pts, to);
        proof {
            assert(d > 0) by (nonlinear_arith)
                requires
                    d == self@.den * to@.num,
                    self@.den > 0,
                    to@.num > 0,
            ;
        }
        div_round_half_away(n, d)
    }

    /// Rescales `pts` from this timebase to `to`, or `None` if the answer is
    /// not an `i64` or `to` is degenerate.
    ///
    /// FFmpeg's `av_rescale_q(pts, self, to)`, rounding to nearest with
    /// halfway cases away from zero.
    pub fn checked_rescale(&self, pts: i64, to: Self) -> (r: Option<i64>)
        ensures
            r is Some <==> checked_rescale(pts as int, self@, to@) is Some,
            r matches Some(q) ==> checked_rescale(pts as int, self@, to@) == Some(q as int),
    {
        if to.num == 0 {
            return None;
        }
        let q = self.rescaled(pts, to);
        if q > i64::MAX as i128 || q < i64::MIN as i128 {
            None
        } else {
            Some(q as i64)
        }
    }

    /// Rescales `pts` from this timebase to `to`, clamping to `i64::MIN` or
    /// `i64::MAX` instead of overflowing.
    ///
    /// The target must not be degenerate (`to.num() == 0`): saturation
    /// answers overflow, not a zero divisor. [`Self::checked_rescale`] is the
    /// total spelling.
    pub fn saturating_rescale(&self, pts: i64, to: Self) -> (r: i64)
        requires
            to@.num != 0,
        ensures
            r == saturating_rescale(pts as int, self@, to@),
    {
        let q = self.rescaled(pts, to);
        if q > i64::MAX as i128 {
            i64::MAX
        } else if q < i64::MIN as i128 {
            i64::MIN
        } else {
            q as i64
        }
    }

    /// `nanos` in ticks of this timebase, rounded to nearest with halfway
    /// cases up.
    fn duration_ticks(&self, nanos: u128) -> (r: u128)
        requires
            self@.num != 0,
            nanos <= max_duration_nanos(),
        ensures
            r == duration_ticks(nanos as int, self@),
    {
        proof {
            use_type_invariant(self);
            assert(nanos * self@.den < 0x4000_0000_0000_0000_0000_0000_0000_0000) by (nonlinear_arith)
                requires
                    nanos <= max_duration_nanos(),
                    0 < self@.den < 0x8000_0000,
            ;
            assert(0 < self@.num * 1_000_000_000 < 0x4000_0000_0000_0000) by (nonlinear_arith)
                requires
                    0 < self@.num < 0x8000_0000,
            ;
        }
        let numerator = nanos * (self.den as u128);
        let denominator = (self.num as u128) * 1_000_000_000;
        div_round_half_up(numerator, denominator)
    }

    /// A non-negative `pts` in nanoseconds under this timebase, rounded to
    /// nearest with halfway cases up.
    fn tick_nanos(&self, pts: i64) -> (r: u128)
        requires
            pts >= 0,
        ensures
            r == tick_nanos(pts as int, self@),
            r <= 0x8000_0000_0000_0000 * 0x8000_0000 * 1_000_000_000,
    {
        proof {
            use_type_invariant(self);
            assert(0 <= pts * self@.num * 1_000_000_000 <= 0x8000_0000_0000_0000 * 0x8000_0000 * 1_000_000_000) by (nonlinear_arith)
                requires
                    0 <= pts < 0x8000_0000_0000_0000,
                    0 <= self@.num < 0x8000_0000,
            ;
        }
        let numerator = (pts as u128) * (self.num as u128) * 1_000_000_000;
        let r = div_round_half_up(numerator, self.den as u128);
        proof {
            let n = numerator as int;
            let d = self@.den;
            assert(n <= n * d) by (nonlinear_arith)
                requires
                    n >= 0,
                    d >= 1,
            ;
            lemma_round_half_away_monotone(n, n * d, d);
            lemma_round_half_away_exact(n, d);
        }
        r
    }

    /// Converts a [`Duration`] into the number of ticks of this timebase that
    /// span it, or `None` if that count is not an `i64` or the timebase is
    /// degenerate.
    pub fn checked_duration_to_pts(&self, d: Duration) -> (r: Option<i64>)
        ensures
            r is Some <==> (self@.num != 0 && duration_ticks(duration_nanos(d) as int, self@)
                <= i64::MAX),
            r matches Some(t) ==> t == duration_ticks(duration_nanos(d) as int, self@),
    {
        if self.num == 0 {
            return None;
        }
        let ticks = self.duration_ticks(duration_as_nanos(&d));
        if ticks > i64::MAX as u128 {
            None
        } else {
            Some(ticks as i64)
        }
    }

    /// Converts a [`Duration`] into ticks of this timebase, clamping at
    /// `i64::MAX` instead of overflowing.
    ///
    /// The timebase must not be degenerate: no count of `0/den` ticks spans
    /// any time. [`Self::checked_duration_to_pts`] is the total spelling.
    pub fn saturating_duration_to_pts(&self, d: Duration) -> (r: i64)
        requires
            self@.num != 0,
        ensures
            r == clamp_i64(duration_ticks(duration_nanos(d) as int, self@)),
    {
        let ticks = self.duration_ticks(duration_as_nanos(&d));
        proof {
            use_type_invariant(self);
            let dn = duration_nanos(d) as int;
            assert(dn * self@.den >= 0) by (nonlinear_arith)
                requires
                    dn >= 0,
                    self@.den > 0,
            ;
            lemma_round_half_up_nonneg(dn * self@.den, self@.num * 1_000_000_000);
        }
        if ticks > i64::MAX as u128 {
            i64::MAX
        } else {
            ticks as i64
        }
    }

    /// Converts a tick count in this timebase into the [`Duration`] it spans,
    /// or `None` for a negative `pts` or a span past `Duration::MAX`.
    pub fn checked_pts_to_duration(&self, pts: i64) -> (r: Option<Duration>)
        ensures
            r is Some <==> (pts >= 0 && tick_nanos(pts as int, self@) <= max_duration_nanos()),
            r matches Some(d) ==> duration_nanos(d) == tick_nanos(pts as int, self@),
    {
        if pts < 0 {
            return None;
        }
        let nanos = self.tick_nanos(pts);
        let secs = nanos / 1_000_000_000;
        proof {
            lemma_fundamental_div_mod(nanos as int, 1_000_000_000);
            lemma_mod_bound(nanos as int, 1_000_000_000);
        }
        if secs > u64::MAX as u128 {
            return None;
        }
        Some(duration_from_parts(secs as u64, (nanos % 1_000_000_000) as u32))
    }

    /// Converts a tick count in this timebase into the [`Duration`] it spans,
    /// clamping a negative `pts` to zero and a span past `Duration::MAX` to
    /// it.
    pub fn saturating_pts_to_duration(&self, pts: i64) -> (r: Duration)
        ensures
            duration_nanos(r) == (if pts < 0 {
                0
            } else if tick_nanos(pts as int, self@) > max_duration_nanos() {
                max_duration_nanos()
            } else {
                tick_nanos(pts as int, self@)
            }),
    {
        if pts < 0 {
            return duration_zero();
        }
        let nanos = self.tick_nanos(pts);
        let secs = nanos / 1_000_000_000;
        proof {
            lemma_fundamental_div_mod(nanos as int, 1_000_000_000);
            lemma_mod_bound(nanos as int, 1_000_000_000);
        }
        if secs > u64::MAX as u128 {
            return duration_max();
        }
        duration_from_parts(secs as u64, (nanos % 1_000_000_000) as u32)
    }

    /// The products `num * other.den` and `other.num * den` that order two
    /// rationals.
    fn cross_products(&self, other: &Self) -> (r: (i64, i64))
        ensures
            r.0 == self@.num * other@.den,
            r.1 == other@.num * self@.den,
    {
        proof {
            use_type_invariant(self);
            use_type_invariant(other);
            assert(0 <= self@.num * other@.den <= 0x7FFF_FFFF * 0x7FFF_FFFF) by (nonlinear_arith)
                requires
                    0 <= self@.num <= 0x7FFF_FFFF,
                    0 < other@.den <= 0x7FFF_FFFF,
            ;
            assert(0 <= other@.num * self@.den <= 0x7FFF_FFFF * 0x7FFF_FFFF) by (nonlinear_arith)
                requires
                    0 <= other@.num <= 0x7FFF_FFFF,
                    0 < self@.den <= 0x7FFF_FFFF,
            ;
        }
        ((self.num as i64) * (other.den as i64), (other.num as i64) * (self.den as i64))
    }
}

/// The well-known roster: the timebases containers and codecs declare.
impl Timebase {
    /// One tick per second.
    #[allow(non_snake_case)]
    pub fn SECONDS() -> (r: Self)
        ensures
            r@ == (Rational { num: 1, den: 1 }),
    {
        Self::from_parts(1, 1)
    }

    /// Millisecond ticks — Matroska's default `TimecodeScale`, FLV, WebVTT and SRT.
    #[allow(non_snake_case)]
    pub fn MILLIS() -> (r: Self)
        ensures
            r@ == (Rational { num: 1, den: 1_000 }),
    {
        Self::from_parts(1, 1_000)
    }

    /// Microsecond ticks — FFmpeg's `AV_TIME_BASE`.
    #[allow(non_snake_case)]
    pub fn MICROS() -> (r: Self)
        ensures
            r@ == (Rational { num: 1, den: 1_000_000 }),
    {
        Self::from_parts(1, 1_000_000)
    }

    /// Nanosecond ticks — the resolution a `Duration` carries.
    #[allow(non_snake_case)]
    pub fn NANOS() -> (r: Self)
        ensures
            r@ == (Rational { num: 1, den: 1_000_000_000 }),
    {
        Self::from_parts(1, 1_000_000_000)
    }

    /// The 90 kHz clock MPEG-TS, MPEG-PS and RTP video count PTS in.
    #[allow(non_snake_case)]
    pub fn MPEG_90K() -> (r: Self)
        ensures
            r@ == (Rational { num: 1, den: 90_000 }),
    {
        Self::from_parts(1, 90_000)
    }

    /// One tick per audio sample at 8 kHz.
    #[allow(non_snake_case)]
    pub fn HZ_8K() -> (r: Self)
        ensures
            r@ == (Rational { num: 1, den: 8_000 }),
    {
        Self::from_parts(1, 8_000)
    }

    /// One tick per audio sample at 11.025 kHz.
    #[allow(non_snake_case)]
    pub fn HZ_11_025K() -> (r: Self)
        ensures
            r@ == (Rational { num: 1, den: 11_025 }),
    {
        Self::from_parts(1, 11_025)
    }

    /// One tick per audio sample at 12 kHz.
    #[allow(non_snake_case)]
    pub fn HZ_12K() -> (r: Self)
        ensures
            r@ == (Rational { num: 1, den: 12_000 }),
    {
        Self::from_parts(1, 12_000)
    }

    /// One tick per audio sample at 16 kHz.
    #[allow(non_snake_case)]
    pub fn HZ_16K() -> (r: Self)
        ensures
            r@ == (Rational { num: 1, den: 16_000 }),
    {
        Self::from_parts(1, 16_000)
    }

    /// One tick per audio sample at 22.05 kHz.
    #[allow(non_snake_case)]
    pub fn HZ_22_05K() -> (r: Self)
        ensures
            r@ == (Rational { num: 1, den: 22_050 }),
    {
        Self::from_parts(1, 22_050)
    }

    /// One tick per audio sample at 24 kHz.
    #[allow(non_snake_case)]
    pub fn HZ_24K() -> (r: Self)
        ensures
            r@ == (Rational { num: 1, den: 24_000 }),
    {
        Self::from_parts(1, 24_000)
    }

    /// One tick per audio sample at 32 kHz.
    #[allow(non_snake_case)]
    pub fn HZ_32K() -> (r: Self)
        ensures
            r@ == (Rational { num: 1, den: 32_000 }),
    {
        Self::from_parts(1, 32_000)
    }

    /// One tick per audio sample at 44.1 kHz (CD-DA).
    #[allow(non_snake_case)]
    pub fn HZ_44_1K() -> (r: Self)
        ensures
            r@ == (Rational { num: 1, den: 44_100 }),
    {
        Self::from_parts(1, 44_100)
    }

    /// One tick per audio sample at 48 kHz.
    #[allow(non_snake_case)]
    pub fn HZ_48K() -> (r: Self)
        ensures
            r@ == (Rational { num: 1, den: 48_000 }),
    {
        Self::from_parts(1, 48_000)
    }

    /// One tick per audio sample at 64 kHz.
    #[allow(non_snake_case)]
    pub fn HZ_64K() -> (r: Self)
        ensures
            r@ == (Rational { num: 1, den: 64_000 }),
    {
        Self::from_parts(1, 64_000)
    }

    /// One tick per audio sample at 88.2 kHz.
    #[allow(non_snake_case)]
    pub fn HZ_88_2K() -> (r: Self)
        ensures
            r@ == (Rational { num: 1, den: 88_200 }),
    {
        Self::from_parts(1, 88_200)
    }

    /// One tick per audio sample at 96 kHz.
    #[allow(non_snake_case)]
    pub fn HZ_96K() -> (r: Self)
        ensures
            r@ == (Rational { num: 1, den: 96_000 }),
    {
        Self::from_parts(1, 96_000)
    }

    /// One tick per audio sample at 176.4 kHz.
    #[allow(non_snake_case)]
    pub fn HZ_176_4K() -> (r: Self)
        ensures
            r@ == (Rational { num: 1, den: 176_400 }),
    {
        Self::from_parts(1, 176_400)
    }

    /// One tick per audio sample at 192 kHz.
    #[allow(non_snake_case)]
    pub fn HZ_192K() -> (r: Self)
        ensures
            r@ == (Rational { num: 1, den: 192_000 }),
    {
        Self::from_parts(1, 192_000)
    }

    /// One tick per frame at 24000/1001 fps (23.976) — the reciprocal of the rate.
    #[allow(non_snake_case)]
    pub fn NTSC_FILM() -> (r: Self)
        ensures
            r@ == (Rational { num: 1_001, den: 24_000 }),
    {
        Self::from_parts(1_001, 24_000)
    }

    /// One tick per frame at exactly 24 fps.
    #[allow(non_snake_case)]
    pub fn FILM_24() -> (r: Self)
        ensures
            r@ == (Rational { num: 1, den: 24 }),
    {
        Self::from_parts(1, 24)
    }

    /// One tick per frame at 25 fps.
    #[allow(non_snake_case)]
    pub fn PAL_25() -> (r: Self)
        ensures
            r@ == (Rational { num: 1, den: 25 }),
    {
        Self::from_parts(1, 25)
    }

    /// One tick per frame at 30000/1001 fps (29.97).
    #[allow(non_snake_case)]
    pub fn NTSC_VIDEO() -> (r: Self)
        ensures
            r@ == (Rational { num: 1_001, den: 30_000 }),
    {
        Self::from_parts(1_001, 30_000)
    }

    /// One tick per frame at exactly 30 fps.
    #[allow(non_snake_case)]
    pub fn VIDEO_30() -> (r: Self)
        ensures
            r@ == (Rational { num: 1, den: 30 }),
    {
        Self::from_parts(1, 30)
    }

    /// One tick per frame at exactly 50 fps.
    #[allow(non_snake_case)]
    pub fn PAL_50() -> (r: Self)
        ensures
            r@ == (Rational { num: 1, den: 50 }),
    {
        Self::from_parts(1, 50)
    }

    /// One tick per frame at 60000/1001 fps (59.94).
    #[allow(non_snake_case)]
    pub fn NTSC_60() -> (r: Self)
        ensures
            r@ == (Rational { num: 1_001, den: 60_000 }),
    {
        Self::from_parts(1_001, 60_000)
    }

    /// One tick per frame at exactly 60 fps.
    #[allow(non_snake_case)]
    pub fn VIDEO_60() -> (r: Self)
        ensures
            r@ == (Rational { num: 1, den: 60 }),
    {
        Self::from_parts(1, 60)
    }
}

impl Timebase {
    /// Value order: `1/3 < 1/2 < 2/3 < 1/1`.
    fn order(&self, other: &Self) -> (r: Ordering)
        ensures
            r == value_cmp(self@, other@),
    {
        let (lhs, rhs) = self.cross_products(other);
        if lhs < rhs {
            Ordering::Less
        } else if lhs > rhs {
            Ordering::Greater
        } else {
            Ordering::Equal
        }
    }
}

impl Default for Timebase {
    /// The identity rational, `1/1`.
    fn default() -> (r: Self)
        ensures
            r@ == (Rational { num: 1, den: 1 }),
    {
        Self::from_parts(1, 1)
    }
}

impl PartialEq for Timebase {
    fn eq(&self, other: &Self) -> (r: bool) {
        let (lhs, rhs) = self.cross_products(other);
        lhs == rhs
    }
}

impl vstd::std_specs::cmp::PartialEqSpecImpl for Timebase {
    open spec fn obeys_eq_spec() -> bool {
        true
    }

    open spec fn eq_spec(&self, other: &Self) -> bool {
        value_eq(self@, other@)
    }
}

impl Eq for Timebase {}

impl PartialOrd for Timebase {
    fn partial_cmp(&self, other: &Self) -> (r: Option<Ordering>) {
        Some(self.order(other))
    }
}

impl vstd::std_specs::cmp::PartialOrdSpecImpl for Timebase {
    open spec fn obeys_partial_cmp_spec() -> bool {
        true
    }

    open spec fn partial_cmp_spec(&self, other: &Self) -> Option<Ordering> {
        Some(value_cmp(self@, other@))
    }
}

impl Timebase {
    /// What hashing this timebase feeds the hasher: the rational's lowest
    /// terms, numerator then denominator.
    pub open spec fn hash_key(self) -> (i32, i32) {
        (self@.reduced().num as i32, self@.reduced().den as i32)
    }
}

impl Timebase {
    /// A timebase's numerator and denominator are `i32`s.
    pub proof fn lemma_view_fits(self)
        ensures
            i32::MIN <= self@.num <= i32::MAX,
            i32::MIN <= self@.den <= i32::MAX,
    {
    }
}

/// Hashing agrees with `==` and tells unequal values apart: two valid
/// timebases feed the hasher the same key exactly when they are equal as
/// rationals — `2/4` and `1/2`, or `40/1000` and `1/25`, hash alike, and no
/// two different values share a key.
pub proof fn law_equal_timebases_hash_alike(a: Timebase, b: Timebase)
    requires
        a@.valid(),
        b@.valid(),
    ensures
        value_eq(a@, b@) <==> a.hash_key() == b.hash_key(),
{
    law_reduce_canonicalizes(a@);
    law_reduce_canonicalizes(b@);
    lemma_reduced_fits(a@);
    lemma_reduced_fits(b@);
    if value_eq(a@, b@) {
        law_equal_timebases_reduce_alike(a@, b@);
    }
    if a.hash_key() == b.hash_key() {
        assert(a@.reduced() == b@.reduced());
        law_value_eq_is_an_equivalence(a@.reduced(), a@, b@);
        law_value_eq_is_an_equivalence(a@, a@.reduced(), b@);
    }
}

/// A valid rational with `i32` halves keeps `i32` halves in lowest terms.
proof fn lemma_reduced_fits(a: Rational)
    requires
        a.valid(),
        a.num <= i32::MAX,
        a.den <= i32::MAX,
    ensures
        0 <= a.reduced().num <= a.num,
        0 < a.reduced().den <= a.den,
{
    lemma_divided_by_gcd_is_lowest(a.num as nat, a.den as nat);
    let g = gcd(a.num as nat, a.den as nat) as int;
    let r = a.reduced();
    assert(0 <= r.num <= a.num && 0 < r.den <= a.den) by (nonlinear_arith)
        requires
            a.num == r.num * g,
            a.den == r.den * g,
            g > 0,
            a.num >= 0,
            a.den > 0,
    ;
}

impl core::hash::Hash for Timebase {
    /// Hashes the reduced form, so equal rationals hash alike: the hasher is
    /// fed [`Timebase::hash_key`] and nothing else.
    fn hash<H: core::hash::Hasher>(&self, state: &mut H)
        ensures
            exists|through: &mut H|
                {
                    &&& #[trigger] call_ensures(
                        feed_i32_pair::<H>,
                        (&self.hash_key().0, &self.hash_key().1, through),
                        (),
                    )
                    &&& mut_ref_current(through) == *old(state)
                    &&& mut_ref_future(through) == *final(state)
                },
    {
        let reduced = self.reduce();
        assert(reduced.num == self.hash_key().0 && reduced.den == self.hash_key().1);
        feed_i32_pair(&reduced.num, &reduced.den, state);
    }


}

/// A rate — events per second — as a rational: `30000/1001` is NTSC video's
/// 29.97 frames per second, `48000/1` an audio sample rate.
///
/// The other reading of a [`Timebase`]: a rate and a PTS timebase are one
/// rational read in opposite directions. Equality, order and hash are the
/// inner rational's, so they are value-based.
#[derive(Debug, Default, Clone, Copy, PartialEq, Eq, PartialOrd, Hash)]
pub struct Rate(Timebase);

impl View for Rate {
    type V = Rational;

    closed spec fn view(&self) -> Rational {
        self.0@
    }
}

/// The well-known frame rates, mirrored entry for entry on the timebase
/// roster's frame intervals.
impl Rate {
    /// 24000/1001 events per second (23.976).
    #[allow(non_snake_case)]
    pub fn FPS_23_976() -> (r: Self)
        ensures
            r@ == (Rational { num: 24_000, den: 1_001 }),
    {
        Rate(Timebase::from_parts(24_000, 1_001))
    }

    /// Exactly 24 frames per second.
    #[allow(non_snake_case)]
    pub fn FPS_24() -> (r: Self)
        ensures
            r@ == (Rational { num: 24, den: 1 }),
    {
        Rate(Timebase::from_parts(24, 1))
    }

    /// Exactly 25 frames per second.
    #[allow(non_snake_case)]
    pub fn FPS_25() -> (r: Self)
        ensures
            r@ == (Rational { num: 25, den: 1 }),
    {
        Rate(Timebase::from_parts(25, 1))
    }

    /// 30000/1001 events per second (29.97).
    #[allow(non_snake_case)]
    pub fn FPS_29_97() -> (r: Self)
        ensures
            r@ == (Rational { num: 30_000, den: 1_001 }),
    {
        Rate(Timebase::from_parts(30_000, 1_001))
    }

    /// Exactly 30 frames per second.
    #[allow(non_snake_case)]
    pub fn FPS_30() -> (r: Self)
        ensures
            r@ == (Rational { num: 30, den: 1 }),
    {
        Rate(Timebase::from_parts(30, 1))
    }

    /// Exactly 50 frames per second.
    #[allow(non_snake_case)]
    pub fn FPS_50() -> (r: Self)
        ensures
            r@ == (Rational { num: 50, den: 1 }),
    {
        Rate(Timebase::from_parts(50, 1))
    }

    /// 60000/1001 events per second (59.94).
    #[allow(non_snake_case)]
    pub fn FPS_59_94() -> (r: Self)
        ensures
            r@ == (Rational { num: 60_000, den: 1_001 }),
    {
        Rate(Timebase::from_parts(60_000, 1_001))
    }

    /// Exactly 60 frames per second.
    #[allow(non_snake_case)]
    pub fn FPS_60() -> (r: Self)
        ensures
            r@ == (Rational { num: 60, den: 1 }),
    {
        Rate(Timebase::from_parts(60, 1))
    }
}

impl Rate {
    /// `n` events per second, as a whole number.
    ///
    /// `n` must not be negative; zero is the degenerate rate, and is
    /// accepted.
    pub fn hz(n: i32) -> (r: Self)
        requires
            n >= 0,
        ensures
            r@ == (Rational { num: n as int, den: 1 }),
    {
        Rate(Timebase::from_parts(n, 1))
    }

    /// Fallible variant of [`Self::hz`]: `None` when `n < 0`.
    pub fn try_hz(n: i32) -> (r: Option<Self>)
        ensures
            r is Some <==> n >= 0,
            r matches Some(rate) ==> rate@ == (Rational { num: n as int, den: 1 }),
    {
        if n >= 0 {
            Some(Rate(Timebase::from_parts(n, 1)))
        } else {
            None
        }
    }

    /// `num`/`den` events per second.
    ///
    /// `num` must not be negative and `den` must be positive, as for
    /// [`Timebase::new`].
    pub fn fps(num: i32, den: i32) -> (r: Self)
        requires
            num >= 0,
            den > 0,
        ensures
            r@ == (Rational { num: num as int, den: den as int }),
    {
        Rate(Timebase::new(num, den))
    }

    /// Fallible variant of [`Self::fps`].
    pub fn try_fps(num: i32, den: i32) -> (r: Option<Self>)
        ensures
            r is Some <==> (num >= 0 && den > 0),
            r matches Some(rate) ==> rate@ == (Rational { num: num as int, den: den as int }),
    {
        match Timebase::try_new(num, den) {
            Some(inner) => Some(Rate(inner)),
            None => None,
        }
    }

    /// Returns the numerator — events per `den()` seconds.
    pub fn num(&self) -> (r: i32)
        ensures
            r == self@.num,
    {
        self.0.num()
    }

    /// Returns the denominator.
    pub fn den(&self) -> (r: i32)
        ensures
            r == self@.den,
            r > 0,
    {
        self.0.den()
    }

    /// The rational read as a timebase, without the reciprocal — what the
    /// rate's own `Display` and equality are stated over.
    pub fn as_rational(&self) -> (r: Timebase)
        ensures
            r@ == self@,
    {
        self.0
    }

    /// The [`Timebase`] one event is counted in — the reciprocal rational.
    ///
    /// The rate must not be degenerate (`num() == 0`): a zero numerator is no
    /// denominator. [`Self::checked_to_timebase`] is the total spelling.
    pub fn to_timebase(&self) -> (r: Timebase)
        requires
            self@.num != 0,
        ensures
            r@ == self@.recip(),
    {
        self.0.checked_recip().unwrap()
    }

    /// The [`Timebase`] one event is counted in, or `None` for the degenerate
    /// rate.
    pub fn checked_to_timebase(&self) -> (r: Option<Timebase>)
        ensures
            r is None <==> self@.num == 0,
            r matches Some(tb) ==> tb@ == self@.recip(),
    {
        self.0.checked_recip()
    }

    /// Reads a [`Timebase`] as the rate it is the reciprocal of.
    ///
    /// The timebase must not be degenerate: a zero numerator is no
    /// denominator. [`Self::checked_from_timebase`] is the total spelling.
    pub fn from_timebase(timebase: Timebase) -> (r: Self)
        requires
            timebase@.num != 0,
        ensures
            r@ == timebase@.recip(),
    {
        Rate(timebase.checked_recip().unwrap())
    }

    /// Reads a [`Timebase`] as a rate, or `None` if it is degenerate.
    pub fn checked_from_timebase(timebase: Timebase) -> (r: Option<Self>)
        ensures
            r is None <==> timebase@.num == 0,
            r matches Some(rate) ==> rate@ == timebase@.recip(),
    {
        match timebase.checked_recip() {
            Some(rate) => Some(Rate(rate)),
            None => None,
        }
    }

    /// How long `frames` events at this rate take, or `None` for a negative
    /// count, a span past `Duration::MAX`, or the degenerate rate.
    pub fn checked_frames_to_duration(&self, frames: i64) -> (r: Option<Duration>)
        ensures
            r is Some <==> (self@.num != 0 && frames >= 0 && tick_nanos(frames as int, self@.recip())
                <= max_duration_nanos()),
            r matches Some(d) ==> duration_nanos(d) == tick_nanos(frames as int, self@.recip()),
    {
        match self.checked_to_timebase() {
            Some(timebase) => timebase.checked_pts_to_duration(frames),
            None => None,
        }
    }

    /// How long `frames` events at this rate take, clamping a negative count
    /// to zero and a span past `Duration::MAX` to it.
    ///
    /// The rate must not be degenerate: no count of events at no events per
    /// second takes any time. [`Self::checked_frames_to_duration`] is the
    /// total spelling.
    pub fn saturating_frames_to_duration(&self, frames: i64) -> (r: Duration)
        requires
            self@.num != 0,
        ensures
            duration_nanos(r) == (if frames < 0 {
                0
            } else if tick_nanos(frames as int, self@.recip()) > max_duration_nanos() {
                max_duration_nanos()
            } else {
                tick_nanos(frames as int, self@.recip())
            }),
    {
        self.to_timebase().saturating_pts_to_duration(frames)
    }
}

/// For a non-negative numerator and positive divisor the rounded quotient is
/// non-negative.
pub proof fn lemma_round_half_up_nonneg(n: int, d: int)
    requires
        n >= 0,
        d > 0,
    ensures
        round_half_away(n, d) >= 0,
{
    lemma_div_pos_is_pos(2 * n + d, 2 * d);
}

} // verus!
