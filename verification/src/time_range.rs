//! [`TimeRange`] — a half-open range `[start, end)` of ticks of one
//! [`Timebase`].

use crate::arith::saturating_sub_i64;
use crate::model::{
    clamp_i64, difference_numerator, elapsed_duration_nanos, saturating_rescale, Interval, Rational,
    Ticks,
};
use crate::primitives::duration_nanos;
use crate::timebase::Timebase;
use crate::timestamp::Timestamp;
use core::time::Duration;
use vstd::prelude::*;

verus! {

/// A half-open time range `[start, end)` in a given [`Timebase`].
///
/// Both endpoints share the timebase. Equality is **structural** on the
/// endpoints and value-based on the timebase; there is no order. The
/// constructors refuse `end < start`; the endpoint setters do not re-check it.
#[derive(Debug, Default, Clone, Copy, PartialEq, Eq, Hash)]
pub struct TimeRange {
    start: i64,
    end: i64,
    timebase: Timebase,
}

impl View for TimeRange {
    type V = Interval;

    closed spec fn view(&self) -> Interval {
        Interval { start: self.start as int, end: self.end as int, tb: self.timebase@ }
    }
}

impl TimeRange {
    /// Creates a new `TimeRange` with the given start/end PTS and shared
    /// timebase.
    ///
    /// `end` must not precede `start`; [`Self::try_new`] is the total
    /// spelling.
    pub fn new(start: i64, end: i64, timebase: Timebase) -> (r: Self)
        requires
            start <= end,
        ensures
            r@ == (Interval { start: start as int, end: end as int, tb: timebase@ }),
    {
        TimeRange { start, end, timebase }
    }

    /// Fallible variant of [`Self::new`]: `None` if `end < start`. Accepts
    /// `start == end` (an instant).
    pub fn try_new(start: i64, end: i64, timebase: Timebase) -> (r: Option<Self>)
        ensures
            r is Some <==> start <= end,
            r matches Some(range) ==> range@ == (Interval {
                start: start as int,
                end: end as int,
                tb: timebase@,
            }),
    {
        if start <= end {
            Some(TimeRange { start, end, timebase })
        } else {
            None
        }
    }

    /// A degenerate (instant) range where `start == end == ts.pts()`.
    pub fn instant(ts: Timestamp) -> (r: Self)
        ensures
            r@ == (Interval { start: ts@.count, end: ts@.count, tb: ts@.tb }),
    {
        TimeRange { start: ts.pts(), end: ts.pts(), timebase: ts.timebase() }
    }

    /// The start PTS in the range's timebase units.
    pub fn start_pts(&self) -> (r: i64)
        ensures
            r == self@.start,
    {
        self.start
    }

    /// The end PTS in the range's timebase units.
    pub fn end_pts(&self) -> (r: i64)
        ensures
            r == self@.end,
    {
        self.end
    }

    /// The shared timebase.
    pub fn timebase(&self) -> (r: Timebase)
        ensures
            r@ == self@.tb,
    {
        self.timebase
    }

    /// The start as a [`Timestamp`].
    pub fn start(&self) -> (r: Timestamp)
        ensures
            r@ == (Ticks { count: self@.start, tb: self@.tb }),
    {
        Timestamp::new(self.start, self.timebase)
    }

    /// The end as a [`Timestamp`].
    pub fn end(&self) -> (r: Timestamp)
        ensures
            r@ == (Ticks { count: self@.end, tb: self@.tb }),
    {
        Timestamp::new(self.end, self.timebase)
    }

    /// Returns `self` with the start PTS replaced.
    pub fn with_start(self, val: i64) -> (r: Self)
        ensures
            r@ == (Interval { start: val as int, ..self@ }),
    {
        TimeRange { start: val, ..self }
    }

    /// Sets the start PTS in place; returns `self` for chaining.
    pub fn set_start(&mut self, val: i64) -> (r: &mut Self)
        ensures
            r@ == (Interval { start: val as int, ..old(self)@ }),
            *final(self) == *final(r),
    {
        self.start = val;
        self
    }

    /// Returns `self` with the end PTS replaced.
    pub fn with_end(self, val: i64) -> (r: Self)
        ensures
            r@ == (Interval { end: val as int, ..self@ }),
    {
        TimeRange { end: val, ..self }
    }

    /// Sets the end PTS in place; returns `self` for chaining.
    pub fn set_end(&mut self, val: i64) -> (r: &mut Self)
        ensures
            r@ == (Interval { end: val as int, ..old(self)@ }),
            *final(self) == *final(r),
    {
        self.end = val;
        self
    }

    /// Returns `self` with the timebase replaced; the counts are kept.
    pub fn with_timebase(self, timebase: Timebase) -> (r: Self)
        ensures
            r@ == (Interval { tb: timebase@, ..self@ }),
    {
        TimeRange { timebase, ..self }
    }

    /// Sets the timebase in place; returns `self` for chaining.
    pub fn set_timebase(&mut self, timebase: Timebase) -> (r: &mut Self)
        ensures
            r@ == (Interval { tb: timebase@, ..old(self)@ }),
            *final(self) == *final(r),
    {
        self.timebase = timebase;
        self
    }

    /// Whether `start == end` (an instant).
    pub fn is_instant(&self) -> (r: bool)
        ensures
            r == (self@.start == self@.end),
    {
        self.start == self.end
    }

    /// The span in PTS units, `end - start`, saturating at the `i64` range.
    pub fn total_pts(&self) -> (r: i64)
        ensures
            r == clamp_i64(self@.end - self@.start),
    {
        saturating_sub_i64(self.end, self.start)
    }

    /// The elapsed [`Duration`] from `start` to `end`.
    ///
    /// `end` must not precede `start`: a backwards range has no unsigned
    /// length.
    pub fn duration(&self) -> (r: Duration)
        requires
            self@.start <= self@.end,
        ensures
            duration_nanos(r) == elapsed_duration_nanos(
                Ticks { count: self@.end, tb: self@.tb },
                Ticks { count: self@.start, tb: self@.tb },
            ),
    {
        proof {
            use_type_invariant(&self.timebase);
            let n = self@.tb.num;
            let d = self@.tb.den;
            assert(self@.end * n * d - self@.start * n * d >= 0) by (nonlinear_arith)
                requires
                    self@.start <= self@.end,
                    n >= 0,
                    d > 0,
            ;
        }
        self.end().duration_since(&self.start()).unwrap()
    }

    /// The same span in a different timebase: both endpoints rescaled to the
    /// nearest tick of `target`, clamped to the `i64` range.
    ///
    /// The target must not be degenerate, as for
    /// [`Timebase::saturating_rescale`].
    pub fn rescale_to(self, target: Timebase) -> (r: Self)
        requires
            target@.num != 0,
        ensures
            r@ == (Interval {
                start: saturating_rescale(self@.start, self@.tb, target@),
                end: saturating_rescale(self@.end, self@.tb, target@),
                tb: target@,
            }),
    {
        TimeRange {
            start: self.timebase.saturating_rescale(self.start, target),
            end: self.timebase.saturating_rescale(self.end, target),
            timebase: target,
        }
    }
}

} // verus!
