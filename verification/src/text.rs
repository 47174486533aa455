//! The text forms of the time types: what each renders as, and the decimal
//! and clock notation underneath.
//!
//! [`Timebase`], [`Rate`] and [`SignedDuration`] have one rendering each, and
//! it is exact. [`Timestamp`] and [`TimeRange`] render by default as a clock,
//! `H:MM:SS.mmm`, truncated toward zero at the millisecond and naming no
//! timebase — readable, and lossy — and exactly through `to_exact_string`,
//! the count beside its timebase, which is the form the parsers read back.

use crate::arith::{abs, div_toward_zero};
use crate::model::{Interval, Rational, Ticks};
use crate::time_range::TimeRange;
use crate::timebase::{Rate, Timebase};
use crate::timestamp::{SignedDuration, Timestamp};
use vstd::prelude::*;

verus! {

broadcast use vstd::string::group_string_axioms;

/// The character of a decimal digit.
pub open spec fn digit_char(d: int) -> char {
    (48 + d) as char
}

/// `n` in decimal, most significant digit first, with no leading zero.
pub open spec fn decimal(n: nat) -> Seq<char>
    decreases n,
{
    if n < 10 {
        seq![digit_char(n as int)]
    } else {
        decimal(n / 10).push(digit_char((n % 10) as int))
    }
}

/// `n` in decimal, with a leading `-` when it is negative.
pub open spec fn signed_decimal(n: int) -> Seq<char> {
    if n < 0 {
        seq!['-'] + decimal(abs(n))
    } else {
        decimal(n as nat)
    }
}

/// `n` in decimal, zero-padded on the left to at least `width` digits.
pub open spec fn padded(n: nat, width: nat) -> Seq<char>
    decreases width,
{
    if width <= decimal(n).len() {
        decimal(n)
    } else {
        seq!['0'] + padded(n, (width - 1) as nat)
    }
}

/// A rational as `num/den`, as written, not reduced.
pub open spec fn rational_text(r: Rational) -> Seq<char> {
    signed_decimal(r.num) + seq!['/'] + signed_decimal(r.den)
}

/// A count beside its timebase, `count @ num/den`: the exact rendering of
/// an instant and of a span.
pub open spec fn ticks_text(t: Ticks) -> Seq<char> {
    signed_decimal(t.count) + seq![' ', '@', ' '] + rational_text(t.tb)
}

/// `pts` ticks of `tb` as whole milliseconds, truncated toward zero.
pub open spec fn clock_millis(pts: int, tb: Rational) -> int {
    div_toward_zero(pts * tb.num * 1000, tb.den)
}

/// An instant on the clock, `H:MM:SS.mmm`: hours unpadded and unbounded,
/// minutes and seconds two digits, milliseconds three, and a `-` in front of
/// the whole when the truncated instant is below zero.
pub open spec fn clock_text(pts: int, tb: Rational) -> Seq<char> {
    let total = clock_millis(pts, tb);
    let magnitude = abs(total);
    let millis = magnitude % 1000;
    let total_secs = magnitude / 1000;
    let secs = total_secs % 60;
    let total_mins = total_secs / 60;
    let mins = total_mins % 60;
    let hours = total_mins / 60;
    (if total < 0 {
        seq!['-']
    } else {
        Seq::empty()
    }) + decimal(hours) + seq![':'] + padded(mins, 2) + seq![':'] + padded(secs, 2) + seq!['.']
        + padded(millis, 3)
}

/// A range as two clocks in interval notation, `[start, end)`.
pub open spec fn range_clock_text(r: Interval) -> Seq<char> {
    seq!['['] + clock_text(r.start, r.tb) + seq![',', ' '] + clock_text(r.end, r.tb) + seq![')']
}

/// A range exactly, `[start, end) @ num/den`, naming the timebase once.
pub open spec fn range_exact_text(r: Interval) -> Seq<char> {
    seq!['['] + signed_decimal(r.start) + seq![',', ' '] + signed_decimal(r.end) + seq![
        ')',
        ' ',
        '@',
        ' ',
    ] + rational_text(r.tb)
}

/// The characters of `s`, in order.
pub(crate) fn chars_of(s: &str) -> (r: Vec<char>)
    ensures
        r@ == s@,
{
    let mut v: Vec<char> = Vec::new();
    for c in it: s.chars()
        invariant
            v@ == it.seq().take(it.index() as int),
            it.seq() == s@,
    {
        v.push(c);
    }
    v
}

/// The text of one decimal digit.
fn digit_text(d: u8) -> (r: &'static str)
    requires
        d < 10,
    ensures
        r@ == seq![digit_char(d as int)],
{
    proof {
        reveal_strlit("0");
        reveal_strlit("1");
        reveal_strlit("2");
        reveal_strlit("3");
        reveal_strlit("4");
        reveal_strlit("5");
        reveal_strlit("6");
        reveal_strlit("7");
        reveal_strlit("8");
        reveal_strlit("9");
    }
    match d {
        0 => "0",
        1 => "1",
        2 => "2",
        3 => "3",
        4 => "4",
        5 => "5",
        6 => "6",
        7 => "7",
        8 => "8",
        _ => "9",
    }
}

/// Appends `n` in decimal.
fn push_decimal(out: &mut String, n: u128)
    ensures
        final(out)@ == old(out)@ + decimal(n as nat),
    decreases n,
{
    if n >= 10 {
        push_decimal(out, n / 10);
    }
    let d = (n % 10) as u8;
    out.append(digit_text(d));
    proof {
        if n >= 10 {
            assert(decimal(n as nat) == decimal((n / 10) as nat).push(digit_char(d as int)));
        }
        assert(final(out)@ =~= old(out)@ + decimal(n as nat));
    }
}

/// Appends `n` in decimal, zero-padded to `width` digits.
fn push_padded(out: &mut String, n: u128, width: u8)
    ensures
        final(out)@ == old(out)@ + padded(n as nat, width as nat),
    decreases width,
{
    proof {
        lemma_decimal_len(n as nat);
    }
    if (width as u128) > decimal_len(n) {
        out.append("0");
        proof {
            reveal_strlit("0");
        }
        let ghost mid = out@;
        push_padded(out, n, width - 1);
        proof {
            assert(final(out)@ =~= old(out)@ + padded(n as nat, width as nat));
        }
    } else {
        push_decimal(out, n);
    }
}

/// How many digits `n` has in decimal.
fn decimal_len(n: u128) -> (r: u128)
    ensures
        r == decimal(n as nat).len(),
    decreases n,
{
    if n < 10 {
        1
    } else {
        proof {
            lemma_decimal_len((n / 10) as nat);
        }
        decimal_len(n / 10) + 1
    }
}

/// A decimal has between one and `n + 1` digits.
pub proof fn lemma_decimal_len(n: nat)
    ensures
        1 <= decimal(n).len() <= n + 1,
    decreases n,
{
    if n >= 10 {
        lemma_decimal_len(n / 10);
    }
}

/// Appends `n` in decimal with its sign.
fn push_signed(out: &mut String, n: i64)
    ensures
        final(out)@ == old(out)@ + signed_decimal(n as int),
{
    if n < 0 {
        out.append("-");
        proof {
            reveal_strlit("-");
        }
        let m: u128 = (-(n as i128)) as u128;
        push_decimal(out, m);
        proof {
            assert(final(out)@ =~= old(out)@ + signed_decimal(n as int));
        }
    } else {
        push_decimal(out, n as u128);
    }
}

/// Appends a rational as `num/den`.
fn push_rational(out: &mut String, tb: Timebase)
    ensures
        final(out)@ == old(out)@ + rational_text(tb@),
{
    let num = tb.num();
    let den = tb.den();
    push_signed(out, num as i64);
    out.append("/");
    proof {
        reveal_strlit("/");
    }
    push_signed(out, den as i64);
    proof {
        assert(final(out)@ =~= old(out)@ + rational_text(tb@));
    }
}

/// Appends a count beside its timebase, `count @ num/den`.
fn push_ticks(out: &mut String, count: i64, tb: Timebase)
    ensures
        final(out)@ == old(out)@ + ticks_text(Ticks { count: count as int, tb: tb@ }),
{
    push_signed(out, count);
    out.append(" @ ");
    proof {
        reveal_strlit(" @ ");
    }
    push_rational(out, tb);
    proof {
        assert(final(out)@ =~= old(out)@ + ticks_text(Ticks { count: count as int, tb: tb@ }));
    }
}

/// Appends an instant on the clock, `H:MM:SS.mmm`.
fn push_clock(out: &mut String, pts: i64, tb: Timebase)
    ensures
        final(out)@ == old(out)@ + clock_text(pts as int, tb@),
{
    let num = tb.num() as i128;
    let den = tb.den() as i128;
    proof {
        assert(-(0x8000_0000_0000_0000 * 0x8000_0000 * 1000) <= pts * num * 1000
            <= 0x8000_0000_0000_0000 * 0x8000_0000 * 1000) by (nonlinear_arith)
            requires
                -0x8000_0000_0000_0000 <= pts <= 0x7FFF_FFFF_FFFF_FFFF,
                0 <= num <= 0x7FFF_FFFF,
        ;
    }
    let n: i128 = (pts as i128) * num * 1000;
    let m: u128 = if n >= 0 {
        n as u128
    } else {
        (-n) as u128
    };
    let magnitude: u128 = m / (den as u128);
    let ghost total = clock_millis(pts as int, tb@);
    proof {
        if n >= 0 {
            assert(total == magnitude);
        } else {
            assert(total == -(magnitude as int));
        }
        assert(abs(total) == magnitude);
    }
    let millis = magnitude % 1000;
    let total_secs = magnitude / 1000;
    let secs = total_secs % 60;
    let total_mins = total_secs / 60;
    let mins = total_mins % 60;
    let hours = total_mins / 60;
    let ghost start = out@;
    if n < 0 && magnitude > 0 {
        out.append("-");
    }
    let ghost signed = out@;
    push_decimal(out, hours);
    out.append(":");
    push_padded(out, mins, 2);
    out.append(":");
    push_padded(out, secs, 2);
    out.append(".");
    push_padded(out, millis, 3);
    proof {
        reveal_strlit("-");
        reveal_strlit(":");
        reveal_strlit(".");
        assert((total < 0) == (n < 0 && magnitude > 0));
        if total < 0 {
            assert(signed =~= start + seq!['-']);
        } else {
            assert(signed =~= start);
        }
        assert(final(out)@ =~= old(out)@ + clock_text(pts as int, tb@));
    }
}

impl Timebase {
    /// `num/den`, as stored — `2/4` stays `2/4` — which is exact, so there is
    /// no other form.
    pub fn to_string(&self) -> (r: String)
        ensures
            r@ == rational_text(self@),
    {
        let mut out = String::new();
        push_rational(&mut out, *self);
        proof {
            assert(out@ =~= rational_text(self@));
        }
        out
    }
}

impl Rate {
    /// `num/den` events per `den` seconds, as stored.
    pub fn to_string(&self) -> (r: String)
        ensures
            r@ == rational_text(self@),
    {
        self.as_rational().to_string()
    }
}

impl Timestamp {
    /// The instant on the clock, `H:MM:SS.mmm`, truncated toward zero at the
    /// millisecond; `-` leads the whole when the truncated instant is below
    /// zero. Lossy: it names no timebase.
    pub fn to_string(&self) -> (r: String)
        ensures
            r@ == clock_text(self@.count, self@.tb),
    {
        let mut out = String::new();
        push_clock(&mut out, self.pts(), self.timebase());
        proof {
            assert(out@ =~= clock_text(self@.count, self@.tb));
        }
        out
    }

    /// The exact form, `pts @ num/den`, which parsing reads back.
    pub fn to_exact_string(&self) -> (r: String)
        ensures
            r@ == ticks_text(self@),
    {
        let mut out = String::new();
        push_ticks(&mut out, self.pts(), self.timebase());
        proof {
            assert(out@ =~= ticks_text(self@));
        }
        out
    }
}

impl SignedDuration {
    /// `ticks @ num/den`, the sign on the count — exact, and the only form a
    /// span has.
    pub fn to_string(&self) -> (r: String)
        ensures
            r@ == ticks_text(self@),
    {
        let mut out = String::new();
        push_ticks(&mut out, self.ticks(), self.timebase());
        proof {
            assert(out@ =~= ticks_text(self@));
        }
        out
    }
}

impl TimeRange {
    /// Both endpoints on the clock in interval notation,
    /// `[0:00:01.500, 0:00:03.250)`.
    pub fn to_string(&self) -> (r: String)
        ensures
            r@ == range_clock_text(self@),
    {
        let tb = self.timebase();
        let mut out = String::new();
        out.append("[");
        push_clock(&mut out, self.start_pts(), tb);
        out.append(", ");
        push_clock(&mut out, self.end_pts(), tb);
        out.append(")");
        proof {
            reveal_strlit("[");
            reveal_strlit(", ");
            reveal_strlit(")");
            assert(out@ =~= range_clock_text(self@));
        }
        out
    }

    /// The exact form, `[start, end) @ num/den`, which parsing reads back.
    pub fn to_exact_string(&self) -> (r: String)
        ensures
            r@ == range_exact_text(self@),
    {
        let mut out = String::new();
        out.append("[");
        push_signed(&mut out, self.start_pts());
        out.append(", ");
        push_signed(&mut out, self.end_pts());
        out.append(") @ ");
        push_rational(&mut out, self.timebase());
        proof {
            reveal_strlit("[");
            reveal_strlit(", ");
            reveal_strlit(") @ ");
            assert(out@ =~= range_exact_text(self@));
        }
        out
    }
}

} // verus!
