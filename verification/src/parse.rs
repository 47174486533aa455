//! Reading the time types back from text: each parser inverts its type's
//! exact rendering, and rejects with an error of its own.
//!
//! The grammars are those of the renderings, with whitespace (Unicode's
//! `White_Space`, as `str::trim` strips it) allowed around every part, and
//! integers as the standard library's `from_str` reads them: an optional
//! sign, then at least one ASCII digit, inside the type's range. A timebase
//! or a rate may also be given by a roster name, folded for ASCII case. The
//! clock renderings are not read: they name no timebase and cannot name the
//! instant they were printed from.

use crate::model::{in_i64, Interval, Rational, Ticks};
use crate::roster::{rate_by_name, rate_roster, timebase_by_name, timebase_roster, value_named};
use crate::text::chars_of;
use crate::time_range::TimeRange;
use crate::timebase::{Rate, Timebase};
use crate::timestamp::{SignedDuration, Timestamp};
use vstd::prelude::*;

verus! {

broadcast use vstd::string::group_string_axioms;

/// Unicode's `White_Space` property: the characters `str::trim` strips.
pub open spec fn is_white_space(c: char) -> bool {
    let u = c as u32;
    ||| 0x09 <= u <= 0x0D
    ||| u == 0x20
    ||| u == 0x85
    ||| u == 0xA0
    ||| u == 0x1680
    ||| 0x2000 <= u <= 0x200A
    ||| u == 0x2028
    ||| u == 0x2029
    ||| u == 0x202F
    ||| u == 0x205F
    ||| u == 0x3000
}

/// `s` without its leading whitespace.
pub open spec fn trim_start(s: Seq<char>) -> Seq<char>
    decreases s.len(),
{
    if s.len() > 0 && is_white_space(s[0]) {
        trim_start(s.drop_first())
    } else {
        s
    }
}

/// `s` without its trailing whitespace.
pub open spec fn trim_end(s: Seq<char>) -> Seq<char>
    decreases s.len(),
{
    if s.len() > 0 && is_white_space(s.last()) {
        trim_end(s.drop_last())
    } else {
        s
    }
}

/// `s` without leading or trailing whitespace.
pub open spec fn trim(s: Seq<char>) -> Seq<char> {
    trim_end(trim_start(s))
}

/// Where `c` first occurs in `s`.
pub open spec fn first_index(s: Seq<char>, c: char) -> Option<int>
    decreases s.len(),
{
    if s.len() == 0 {
        None
    } else if s[0] == c {
        Some(0)
    } else {
        match first_index(s.drop_first(), c) {
            Some(i) => Some(i + 1),
            None => None,
        }
    }
}

/// What `first_index` finds: the first occurrence, or none at all.
pub proof fn lemma_first_index(s: Seq<char>, c: char)
    ensures
        match first_index(s, c) {
            Some(i) => 0 <= i < s.len() && s[i] == c && forall|j: int| 0 <= j < i ==> s[j] != c,
            None => forall|j: int| 0 <= j < s.len() ==> s[j] != c,
        },
    decreases s.len(),
{
    if s.len() > 0 && s[0] != c {
        lemma_first_index(s.drop_first(), c);
        match first_index(s.drop_first(), c) {
            Some(i) => {
                assert forall|j: int| 0 <= j < i + 1 implies s[j] != c by {
                    if j > 0 {
                        assert(s[j] == s.drop_first()[j - 1]);
                    }
                }
            },
            None => {
                assert forall|j: int| 0 <= j < s.len() implies s[j] != c by {
                    if j > 0 {
                        assert(s[j] == s.drop_first()[j - 1]);
                    }
                }
            },
        }
    }
}

/// `s` split around the first `c`: what is before it and what is after.
pub open spec fn split_once(s: Seq<char>, c: char) -> Option<(Seq<char>, Seq<char>)> {
    match first_index(s, c) {
        Some(i) => Some((s.take(i), s.skip(i + 1))),
        None => None,
    }
}

/// An ASCII digit.
pub open spec fn is_digit(c: char) -> bool {
    '0' <= c && c <= '9'
}

/// A non-empty run of ASCII digits.
pub open spec fn all_digits(s: Seq<char>) -> bool {
    &&& s.len() > 0
    &&& forall|i: int| 0 <= i < s.len() ==> #[trigger] is_digit(s[i])
}

/// The value of a run of decimal digits.
pub open spec fn digits_value(s: Seq<char>) -> nat
    decreases s.len(),
{
    if s.len() == 0 {
        0
    } else {
        digits_value(s.drop_last()) * 10 + ((s.last() as u32) - 48) as nat
    }
}

/// An integer as `from_str` reads one: an optional `+` or `-`, then at least
/// one ASCII digit and nothing else. Unbounded; the range is the caller's.
pub open spec fn integer_text(s: Seq<char>) -> Option<int> {
    if s.len() > 0 && s[0] == '-' {
        if all_digits(s.drop_first()) {
            Some(-digits_value(s.drop_first()))
        } else {
            None
        }
    } else if s.len() > 0 && s[0] == '+' {
        if all_digits(s.drop_first()) {
            Some(digits_value(s.drop_first()) as int)
        } else {
            None
        }
    } else if all_digits(s) {
        Some(digits_value(s) as int)
    } else {
        None
    }
}

/// An `i64` as `i64::from_str` reads one.
pub open spec fn i64_text(s: Seq<char>) -> Option<int> {
    match integer_text(s) {
        Some(v) => if in_i64(v) {
            Some(v)
        } else {
            None
        },
        None => None,
    }
}

/// An `i32` as `i32::from_str` reads one.
pub open spec fn i32_text(s: Seq<char>) -> Option<int> {
    match integer_text(s) {
        Some(v) => if i32::MIN <= v <= i32::MAX {
            Some(v)
        } else {
            None
        },
        None => None,
    }
}

/// The `num/den` grammar: two `i32`s around a slash, each trimmed, and a
/// denominator that is not zero. The signs are the caller's to check.
pub open spec fn rational_fields(s: Seq<char>) -> Option<(int, int)> {
    match split_once(s, '/') {
        Some((a, b)) => match (i32_text(trim(a)), i32_text(trim(b))) {
            (Some(n), Some(d)) => if d != 0 {
                Some((n, d))
            } else {
                None
            },
            _ => None,
        },
        None => None,
    }
}

/// A roster name, or `num/den` with `num >= 0` and `den > 0`.
pub open spec fn rational_or_name(s: Seq<char>, roster: Seq<(Seq<char>, Rational)>) -> Option<
    Rational,
> {
    let t = trim(s);
    match value_named(roster, t) {
        Some(v) => Some(v),
        None => match rational_fields(t) {
            Some((n, d)) => if n >= 0 && d > 0 {
                Some(Rational { num: n, den: d })
            } else {
                None
            },
            None => None,
        },
    }
}

/// What [`Timebase::parse`] reads: a timebase name, or `num/den`.
pub open spec fn timebase_text(s: Seq<char>) -> Option<Rational> {
    rational_or_name(s, timebase_roster())
}

/// What [`Rate::parse`] reads: a rate name, or `num/den`.
pub open spec fn rate_text(s: Seq<char>) -> Option<Rational> {
    rational_or_name(s, rate_roster())
}

/// `count @ timebase`: an `i64` and a timebase around the first `@`, each
/// trimmed.
pub open spec fn ticks_text_read(s: Seq<char>) -> Option<Ticks> {
    match split_once(s, '@') {
        Some((a, b)) => match (i64_text(trim(a)), timebase_text(trim(b))) {
            (Some(count), Some(tb)) => Some(Ticks { count, tb }),
            _ => None,
        },
        None => None,
    }
}

/// `[start, end) @ timebase`, with `start <= end`.
pub open spec fn range_text_read(s: Seq<char>) -> Option<Interval> {
    let t = trim(s);
    if t.len() > 0 && t[0] == '[' {
        match split_once(t.drop_first(), ')') {
            Some((endpoints, tail)) => match split_once(endpoints, ',') {
                Some((a, b)) => match (i64_text(trim(a)), i64_text(trim(b))) {
                    (Some(start), Some(end)) => {
                        let after = trim(tail);
                        if after.len() > 0 && after[0] == '@' {
                            match timebase_text(trim(after.drop_first())) {
                                Some(tb) => if start <= end {
                                    Some(Interval { start, end, tb })
                                } else {
                                    None
                                },
                                None => None,
                            }
                        } else {
                            None
                        }
                    },
                    _ => None,
                },
                None => None,
            },
            None => None,
        }
    } else {
        None
    }
}

/// Trimming a character off the front of a range of `s`.
proof fn lemma_trim_start_step(s: Seq<char>, lo: int, hi: int)
    requires
        0 <= lo < hi <= s.len(),
        is_white_space(s[lo]),
    ensures
        trim_start(s.subrange(lo, hi)) == trim_start(s.subrange(lo + 1, hi)),
{
    assert(s.subrange(lo, hi).drop_first() =~= s.subrange(lo + 1, hi));
}

/// Trimming a character off the back of a range of `s`.
proof fn lemma_trim_end_step(s: Seq<char>, lo: int, hi: int)
    requires
        0 <= lo < hi <= s.len(),
        is_white_space(s[hi - 1]),
    ensures
        trim_end(s.subrange(lo, hi)) == trim_end(s.subrange(lo, hi - 1)),
{
    assert(s.subrange(lo, hi).drop_last() =~= s.subrange(lo, hi - 1));
}

/// Whether `c` is whitespace as `char::is_whitespace` defines it.
fn white_space(c: char) -> (r: bool)
    ensures
        r == is_white_space(c),
{
    let u = c as u32;
    (0x09 <= u && u <= 0x0D) || u == 0x20 || u == 0x85 || u == 0xA0 || u == 0x1680 || (0x2000
        <= u && u <= 0x200A) || u == 0x2028 || u == 0x2029 || u == 0x202F || u == 0x205F || u
        == 0x3000
}

/// The bounds of `s[lo..hi]` with its surrounding whitespace trimmed.
fn trim_range(s: &Vec<char>, lo: usize, hi: usize) -> (r: (usize, usize))
    requires
        lo <= hi <= s.len(),
    ensures
        lo <= r.0 <= r.1 <= hi,
        s@.subrange(r.0 as int, r.1 as int) == trim(s@.subrange(lo as int, hi as int)),
{
    let mut a = lo;
    while a < hi && white_space(s[a])
        invariant
            lo <= a <= hi <= s.len(),
            trim_start(s@.subrange(lo as int, hi as int)) == trim_start(
                s@.subrange(a as int, hi as int),
            ),
        decreases hi - a,
    {
        proof {
            lemma_trim_start_step(s@, a as int, hi as int);
        }
        a = a + 1;
    }
    proof {
        let t = s@.subrange(a as int, hi as int);
        if t.len() > 0 {
            assert(t[0] == s@[a as int]);
        }
        assert(trim_start(t) == t);
    }
    let mut b = hi;
    while b > a && white_space(s[b - 1])
        invariant
            lo <= a <= b <= hi <= s.len(),
            trim_end(s@.subrange(a as int, hi as int)) == trim_end(s@.subrange(a as int, b as int)),
        decreases b - a,
    {
        proof {
            lemma_trim_end_step(s@, a as int, b as int);
        }
        b = b - 1;
    }
    proof {
        let t = s@.subrange(a as int, b as int);
        if t.len() > 0 {
            assert(t.last() == s@[b - 1]);
        }
        assert(trim_end(t) == t);
    }
    (a, b)
}

/// Where `c` first occurs in `s[lo..hi]`, as an index into `s`.
fn find_char(s: &Vec<char>, lo: usize, hi: usize, c: char) -> (r: Option<usize>)
    requires
        lo <= hi <= s.len(),
    ensures
        match r {
            Some(j) => lo <= j < hi && first_index(s@.subrange(lo as int, hi as int), c) == Some(
                j - lo,
            ),
            None => first_index(s@.subrange(lo as int, hi as int), c) is None,
        },
{
    proof {
        lemma_first_index(s@.subrange(lo as int, hi as int), c);
    }
    let mut i = lo;
    while i < hi
        invariant
            lo <= i <= hi <= s.len(),
            first_index(s@.subrange(lo as int, hi as int), c) == match first_index(
                s@.subrange(i as int, hi as int),
                c,
            ) {
                Some(k) => Some(k + (i - lo)),
                None => None::<int>,
            },
        decreases hi - i,
    {
        if s[i] == c {
            return Some(i);
        }
        proof {
            assert(s@.subrange(i as int, hi as int).drop_first() =~= s@.subrange(
                i as int + 1,
                hi as int,
            ));
        }
        i = i + 1;
    }
    None
}

/// A run of digits is worth at least any prefix of it.
proof fn lemma_digits_value_prefix(s: Seq<char>, k: int)
    requires
        0 <= k <= s.len(),
    ensures
        digits_value(s.take(k)) <= digits_value(s),
    decreases s.len() - k,
{
    if k < s.len() {
        lemma_digits_value_prefix(s, k + 1);
        assert(s.take(k + 1).drop_last() =~= s.take(k));
        assert(digits_value(s.take(k + 1)) == digits_value(s.take(k)) * 10 + ((s.take(k + 1).last() as u32) - 48) as nat);
    } else {
        assert(s.take(k) =~= s);
    }
}

/// The value of the digits in `s[lo..hi]`, or `None` once it passes `limit`.
fn digits_at_most(s: &Vec<char>, lo: usize, hi: usize, limit: u64) -> (r: Option<u64>)
    requires
        lo <= hi <= s.len(),
        forall|i: int| lo <= i < hi ==> #[trigger] is_digit(s@[i]),
        limit >= 9,
    ensures
        match r {
            Some(v) => v == digits_value(s@.subrange(lo as int, hi as int)) && v <= limit,
            None => digits_value(s@.subrange(lo as int, hi as int)) > limit,
        },
{
    let mut acc: u64 = 0;
    let mut i = lo;
    while i < hi
        invariant
            lo <= i <= hi <= s.len(),
            forall|j: int| lo <= j < hi ==> #[trigger] is_digit(s@[j]),
            acc == digits_value(s@.subrange(lo as int, i as int)),
            acc <= limit,
            limit >= 9,
        decreases hi - i,
    {
        proof {
            assert(is_digit(s@[i as int]));
        }
        let d = (s[i] as u32 - 48) as u64;
        proof {
            assert(s@.subrange(lo as int, i as int + 1).drop_last() =~= s@.subrange(lo as int, i as int));
        }
        if acc > (limit - d) / 10 {
            proof {
                assert(acc * 10 + d > limit) by (nonlinear_arith)
                    requires
                        acc > (limit - d) / 10,
                        d <= 9,
                        d <= limit || acc * 10 + d > limit,
                ;
                assert(s@.subrange(lo as int, hi as int).take(i - lo + 1) =~= s@.subrange(
                    lo as int,
                    i as int + 1,
                ));
                lemma_digits_value_prefix(s@.subrange(lo as int, hi as int), i - lo + 1);
            }
            return None;
        }
        proof {
            assert(acc * 10 + d <= limit) by (nonlinear_arith)
                requires
                    acc <= (limit - d) / 10,
                    d <= limit,
            ;
        }
        acc = acc * 10 + d;
        i = i + 1;
    }
    Some(acc)
}

/// Whether every character of `s[lo..hi]` is an ASCII digit.
fn digits_only(s: &Vec<char>, lo: usize, hi: usize) -> (r: bool)
    requires
        lo <= hi <= s.len(),
    ensures
        r == forall|i: int| lo <= i < hi ==> #[trigger] is_digit(s@[i]),
{
    let mut i = lo;
    while i < hi
        invariant
            lo <= i <= hi <= s.len(),
            forall|j: int| lo <= j < i ==> #[trigger] is_digit(s@[j]),
        decreases hi - i,
    {
        if !('0' <= s[i] && s[i] <= '9') {
            proof {
                assert(!is_digit(s@[i as int]));
            }
            return false;
        }
        i = i + 1;
    }
    true
}

/// `s[lo..hi]` read as an `i64`.
fn i64_at(s: &Vec<char>, lo: usize, hi: usize) -> (r: Option<i64>)
    requires
        lo <= hi <= s.len(),
    ensures
        match i64_text(s@.subrange(lo as int, hi as int)) {
            Some(v) => r == Some(v as i64),
            None => r is None,
        },
{
    let ghost t = s@.subrange(lo as int, hi as int);
    let negative = lo < hi && s[lo] == '-';
    let signed = lo < hi && (s[lo] == '-' || s[lo] == '+');
    let start = if signed {
        lo + 1
    } else {
        lo
    };
    proof {
        assert(signed ==> t.drop_first() =~= s@.subrange(start as int, hi as int));
        assert(!signed ==> t =~= s@.subrange(start as int, hi as int));
    }
    if start >= hi || !digits_only(s, start, hi) {
        proof {
            let body = s@.subrange(start as int, hi as int);
            if start < hi {
                let k = choose|k: int| start <= k < hi && !is_digit(s@[k]);
                assert(!is_digit(body[k - start]));
            }
        }
        return None;
    }
    proof {
        let body = s@.subrange(start as int, hi as int);
        assert forall|i: int| 0 <= i < body.len() implies #[trigger] is_digit(body[i]) by {
            assert(is_digit(s@[start + i]));
        }
    }
    let limit: u64 = if negative {
        0x8000_0000_0000_0000
    } else {
        0x7FFF_FFFF_FFFF_FFFF
    };
    match digits_at_most(s, start, hi, limit) {
        Some(v) => {
            if negative {
                if v == 0x8000_0000_0000_0000 {
                    Some(i64::MIN)
                } else {
                    Some(-(v as i64))
                }
            } else {
                Some(v as i64)
            }
        },
        None => None,
    }
}

/// `s[lo..hi]` read as an `i32`.
fn i32_at(s: &Vec<char>, lo: usize, hi: usize) -> (r: Option<i32>)
    requires
        lo <= hi <= s.len(),
    ensures
        match i32_text(s@.subrange(lo as int, hi as int)) {
            Some(v) => r == Some(v as i32),
            None => r is None,
        },
{
    match i64_at(s, lo, hi) {
        Some(v) => {
            if i32::MIN as i64 <= v && v <= i32::MAX as i64 {
                Some(v as i32)
            } else {
                None
            }
        },
        None => None,
    }
}

/// `s[lo..hi]` as the `num/den` grammar, signs unchecked.
fn rational_at(s: &Vec<char>, lo: usize, hi: usize) -> (r: Option<(i32, i32)>)
    requires
        lo <= hi <= s.len(),
    ensures
        match rational_fields(s@.subrange(lo as int, hi as int)) {
            Some((n, d)) => r == Some((n as i32, d as i32)),
            None => r is None,
        },
{
    let ghost t = s@.subrange(lo as int, hi as int);
    let slash = match find_char(s, lo, hi, '/') {
        Some(i) => i,
        None => return None,
    };
    proof {
        let k = slash - lo;
        assert(t.take(k) =~= s@.subrange(lo as int, slash as int));
        assert(t.skip(k + 1) =~= s@.subrange(slash + 1, hi as int));
        assert(split_once(t, '/') == Some(
            (s@.subrange(lo as int, slash as int), s@.subrange(slash + 1, hi as int)),
        ));
    }
    let (a0, a1) = trim_range(s, lo, slash);
    let (b0, b1) = trim_range(s, slash + 1, hi);
    let num = match i32_at(s, a0, a1) {
        Some(v) => v,
        None => return None,
    };
    let den = match i32_at(s, b0, b1) {
        Some(v) => v,
        None => return None,
    };
    if den == 0 {
        return None;
    }
    Some((num, den))
}

/// `s[lo..hi]` as a roster name or `num/den`, for the timebase roster.
fn timebase_at(s: &Vec<char>, lo: usize, hi: usize) -> (r: Option<Timebase>)
    requires
        lo <= hi <= s.len(),
    ensures
        match timebase_text(s@.subrange(lo as int, hi as int)) {
            Some(v) => r matches Some(tb) && tb@ == v,
            None => r is None,
        },
{
    let (a, b) = trim_range(s, lo, hi);
    if let Some(known) = timebase_by_name(s, a, b) {
        return Some(known);
    }
    match rational_at(s, a, b) {
        Some((num, den)) => Timebase::try_new(num, den),
        None => None,
    }
}

/// `s[lo..hi]` as a roster name or `num/den`, for the rate roster.
fn rate_at(s: &Vec<char>, lo: usize, hi: usize) -> (r: Option<Rate>)
    requires
        lo <= hi <= s.len(),
    ensures
        match rate_text(s@.subrange(lo as int, hi as int)) {
            Some(v) => r matches Some(rate) && rate@ == v,
            None => r is None,
        },
{
    let (a, b) = trim_range(s, lo, hi);
    if let Some(known) = rate_by_name(s, a, b) {
        return Some(known);
    }
    match rational_at(s, a, b) {
        Some((num, den)) => Rate::try_fps(num, den),
        None => None,
    }
}

/// `s` as `count @ timebase`.
fn ticks_at(s: &Vec<char>) -> (r: Option<(i64, Timebase)>)
    ensures
        match ticks_text_read(s@) {
            Some(t) => r matches Some((count, tb)) && count == t.count && tb@ == t.tb,
            None => r is None,
        },
{
    let hi = s.len();
    proof {
        assert(s@.subrange(0, hi as int) =~= s@);
    }
    let at = match find_char(s, 0, hi, '@') {
        Some(i) => i,
        None => return None,
    };
    proof {
        assert(s@.take(at as int) =~= s@.subrange(0, at as int));
        assert(s@.skip(at + 1) =~= s@.subrange(at + 1, hi as int));
        assert(split_once(s@, '@') == Some(
            (s@.subrange(0, at as int), s@.subrange(at + 1, hi as int)),
        ));
    }
    let (a0, a1) = trim_range(s, 0, at);
    let (b0, b1) = trim_range(s, at + 1, hi);
    let count = match i64_at(s, a0, a1) {
        Some(v) => v,
        None => return None,
    };
    match timebase_at(s, b0, b1) {
        Some(tb) => Some((count, tb)),
        None => None,
    }
}

/// Returned when text is not a [`Timebase`] rendering.
#[derive(Debug, Clone, Copy, PartialEq, Eq)]
pub struct ParseTimebaseError(pub ());

/// Returned when text is not a [`Timestamp`] rendering; the clock form, which
/// is lossy, included.
#[derive(Debug, Clone, Copy, PartialEq, Eq)]
pub struct ParseTimestampError(pub ());

/// Returned when text is not a [`SignedDuration`] rendering.
#[derive(Debug, Clone, Copy, PartialEq, Eq)]
pub struct ParseSignedDurationError(pub ());

/// Returned when text is not a [`Rate`] rendering.
#[derive(Debug, Clone, Copy, PartialEq, Eq)]
pub struct ParseRateError(pub ());

/// Returned when text is not a [`TimeRange`] rendering, or its endpoints run
/// backwards.
#[derive(Debug, Clone, Copy, PartialEq, Eq)]
pub struct ParseTimeRangeError(pub ());

impl ParseTimebaseError {
    /// The grammar that was wanted.
    pub fn to_string(&self) -> (r: String)
        ensures
            r@ == "expected a timebase `num/den` with num >= 0 and den > 0, or a well-known name"@,
    {
        String::from_str("expected a timebase `num/den` with num >= 0 and den > 0, or a well-known name")
    }
}

impl ParseTimestampError {
    /// The grammar that was wanted.
    pub fn to_string(&self) -> (r: String)
        ensures
            r@ == "expected a timestamp `pts @ num/den`"@,
    {
        String::from_str("expected a timestamp `pts @ num/den`")
    }
}

impl ParseSignedDurationError {
    /// The grammar that was wanted.
    pub fn to_string(&self) -> (r: String)
        ensures
            r@ == "expected a signed duration `ticks @ num/den`"@,
    {
        String::from_str("expected a signed duration `ticks @ num/den`")
    }
}

impl ParseRateError {
    /// The grammar that was wanted.
    pub fn to_string(&self) -> (r: String)
        ensures
            r@ == "expected a rate `num/den` with num >= 0 and den > 0, or a well-known rate name"@,
    {
        String::from_str("expected a rate `num/den` with num >= 0 and den > 0, or a well-known rate name")
    }
}

impl ParseTimeRangeError {
    /// The grammar that was wanted.
    pub fn to_string(&self) -> (r: String)
        ensures
            r@ == "expected a time range `[start, end) @ num/den`, with start <= end"@,
    {
        String::from_str("expected a time range `[start, end) @ num/den`, with start <= end")
    }
}

impl Timebase {
    /// Reads a well-known name (folded for ASCII case) or `num/den`, trimmed;
    /// the value is kept as written, not reduced.
    pub fn parse(s: &str) -> (r: Result<Timebase, ParseTimebaseError>)
        ensures
            match timebase_text(s@) {
                Some(v) => r matches Ok(tb) && tb@ == v,
                None => r is Err,
            },
    {
        let chars = chars_of(s);
        proof {
            assert(chars@.subrange(0, chars@.len() as int) =~= chars@);
        }
        match timebase_at(&chars, 0, chars.len()) {
            Some(tb) => Ok(tb),
            None => Err(ParseTimebaseError(())),
        }
    }
}

impl Rate {
    /// Reads a well-known rate name (folded for ASCII case) or `num/den`,
    /// trimmed; timebase names are not rates.
    pub fn parse(s: &str) -> (r: Result<Rate, ParseRateError>)
        ensures
            match rate_text(s@) {
                Some(v) => r matches Ok(rate) && rate@ == v,
                None => r is Err,
            },
    {
        let chars = chars_of(s);
        proof {
            assert(chars@.subrange(0, chars@.len() as int) =~= chars@);
        }
        match rate_at(&chars, 0, chars.len()) {
            Some(rate) => Ok(rate),
            None => Err(ParseRateError(())),
        }
    }
}

impl Timestamp {
    /// Reads `pts @ num/den`, the exact rendering, trimmed around each part.
    pub fn parse(s: &str) -> (r: Result<Timestamp, ParseTimestampError>)
        ensures
            match ticks_text_read(s@) {
                Some(t) => r matches Ok(ts) && ts@ == t,
                None => r is Err,
            },
    {
        let chars = chars_of(s);
        match ticks_at(&chars) {
            Some((pts, tb)) => Ok(Timestamp::new(pts, tb)),
            None => Err(ParseTimestampError(())),
        }
    }
}

impl SignedDuration {
    /// Reads `ticks @ num/den`, the rendering, trimmed around each part.
    pub fn parse(s: &str) -> (r: Result<SignedDuration, ParseSignedDurationError>)
        ensures
            match ticks_text_read(s@) {
                Some(t) => r matches Ok(d) && d@ == t,
                None => r is Err,
            },
    {
        let chars = chars_of(s);
        match ticks_at(&chars) {
            Some((ticks, tb)) => Ok(SignedDuration::new(ticks, tb)),
            None => Err(ParseSignedDurationError(())),
        }
    }
}

impl TimeRange {
    /// Reads `[start, end) @ num/den`, the exact rendering, trimmed around
    /// each part; endpoints that run backwards are refused.
    pub fn parse(s: &str) -> (r: Result<TimeRange, ParseTimeRangeError>)
        ensures
            match range_text_read(s@) {
                Some(v) => r matches Ok(range) && range@ == v,
                None => r is Err,
            },
    {
        let chars = chars_of(s);
        let n = chars.len();
        proof {
            assert(chars@.subrange(0, n as int) =~= chars@);
        }
        let (lo, hi) = trim_range(&chars, 0, n);
        let ghost t = chars@.subrange(lo as int, hi as int);
        if lo >= hi || chars[lo] != '[' {
            return Err(ParseTimeRangeError(()));
        }
        proof {
            assert(t.drop_first() =~= chars@.subrange(lo + 1, hi as int));
        }
        let close = match find_char(&chars, lo + 1, hi, ')') {
            Some(i) => i,
            None => return Err(ParseTimeRangeError(())),
        };
        let ghost body = chars@.subrange(lo + 1, hi as int);
        proof {
            let k = close - (lo + 1);
            assert(body.take(k) =~= chars@.subrange(lo + 1, close as int));
            assert(body.skip(k + 1) =~= chars@.subrange(close + 1, hi as int));
        }
        let comma = match find_char(&chars, lo + 1, close, ',') {
            Some(i) => i,
            None => return Err(ParseTimeRangeError(())),
        };
        let ghost endpoints = chars@.subrange(lo + 1, close as int);
        proof {
            let k = comma - (lo + 1);
            assert(endpoints.take(k) =~= chars@.subrange(lo + 1, comma as int));
            assert(endpoints.skip(k + 1) =~= chars@.subrange(comma + 1, close as int));
        }
        let (a0, a1) = trim_range(&chars, lo + 1, comma);
        let (b0, b1) = trim_range(&chars, comma + 1, close);
        let start = match i64_at(&chars, a0, a1) {
            Some(v) => v,
            None => return Err(ParseTimeRangeError(())),
        };
        let end = match i64_at(&chars, b0, b1) {
            Some(v) => v,
            None => return Err(ParseTimeRangeError(())),
        };
        let (c0, c1) = trim_range(&chars, close + 1, hi);
        if c0 >= c1 || chars[c0] != '@' {
            return Err(ParseTimeRangeError(()));
        }
        proof {
            let after = chars@.subrange(c0 as int, c1 as int);
            assert(after.drop_first() =~= chars@.subrange(c0 + 1, c1 as int));
        }
        let (d0, d1) = trim_range(&chars, c0 + 1, c1);
        let timebase = match timebase_at(&chars, d0, d1) {
            Some(tb) => tb,
            None => return Err(ParseTimeRangeError(())),
        };
        match TimeRange::try_new(start, end, timebase) {
            Some(range) => Ok(range),
            None => Err(ParseTimeRangeError(())),
        }
    }
}

impl core::str::FromStr for Timebase {
    type Err = ParseTimebaseError;

    fn from_str(s: &str) -> (r: Result<Self, Self::Err>)
        ensures
            match timebase_text(s@) {
                Some(v) => r matches Ok(x) && x@ == v,
                None => r is Err,
            },
    {
        Timebase::parse(s)
    }
}

impl core::str::FromStr for Rate {
    type Err = ParseRateError;

    fn from_str(s: &str) -> (r: Result<Self, Self::Err>)
        ensures
            match rate_text(s@) {
                Some(v) => r matches Ok(x) && x@ == v,
                None => r is Err,
            },
    {
        Rate::parse(s)
    }
}

impl core::str::FromStr for Timestamp {
    type Err = ParseTimestampError;

    fn from_str(s: &str) -> (r: Result<Self, Self::Err>)
        ensures
            match ticks_text_read(s@) {
                Some(v) => r matches Ok(x) && x@ == v,
                None => r is Err,
            },
    {
        Timestamp::parse(s)
    }
}

impl core::str::FromStr for SignedDuration {
    type Err = ParseSignedDurationError;

    fn from_str(s: &str) -> (r: Result<Self, Self::Err>)
        ensures
            match ticks_text_read(s@) {
                Some(v) => r matches Ok(x) && x@ == v,
                None => r is Err,
            },
    {
        SignedDuration::parse(s)
    }
}

impl core::str::FromStr for TimeRange {
    type Err = ParseTimeRangeError;

    fn from_str(s: &str) -> (r: Result<Self, Self::Err>)
        ensures
            match range_text_read(s@) {
                Some(v) => r matches Ok(x) && x@ == v,
                None => r is Err,
            },
    {
        TimeRange::parse(s)
    }
}

} // verus!
