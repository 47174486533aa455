//! The exact renderings read back: each parser inverts its type's exact
//! rendering, field for field — `2/4` comes back as `2/4`, not `1/2`.
//!
//! The lemmas underneath are about the notation itself: a decimal numeral
//! reads back as its value, trimming a clean text leaves it alone, and a
//! separator that no numeral contains splits a rendering where it was
//! written.

use crate::arith::abs;
use crate::model::{in_i64, Interval, Rational, Ticks};
use crate::parse::{
    all_digits, digits_value, first_index, i32_text, i64_text, integer_text, is_digit,
    is_white_space, range_text_read, rate_text, rational_fields, rational_or_name, split_once,
    ticks_text_read, timebase_text, trim, trim_end, trim_start,
};
use crate::roster::{ascii_lower, folds_equal, rate_roster, timebase_roster, value_named};
use crate::text::{
    decimal, digit_char, range_exact_text, rational_text, signed_decimal, ticks_text,
};
use vstd::prelude::*;

verus! {

broadcast use vstd::string::group_string_axioms;

/// A character a rendered integer is made of: a digit or the minus sign.
pub open spec fn numeral_char(c: char) -> bool {
    is_digit(c) || c == '-'
}

/// Text that starts and ends with something other than whitespace, which
/// trimming leaves alone.
pub open spec fn clean(s: Seq<char>) -> bool {
    &&& s.len() > 0
    &&& !is_white_space(s[0])
    &&& !is_white_space(s.last())
}

/// A decimal numeral is a non-empty run of digits worth its value.
pub proof fn lemma_decimal_reads_back(n: nat)
    ensures
        all_digits(decimal(n)),
        digits_value(decimal(n)) == n,
    decreases n,
{
    if n >= 10 {
        lemma_decimal_reads_back(n / 10);
        let s = decimal(n / 10);
        let d = digit_char((n % 10) as int);
        assert(decimal(n) == s.push(d));
        assert(s.push(d).drop_last() =~= s);
        assert forall|i: int| 0 <= i < s.push(d).len() implies #[trigger] is_digit(
            s.push(d)[i],
        ) by {
            if i < s.len() {
                assert(s.push(d)[i] == s[i]);
            }
        }
        assert((d as u32) - 48 == n % 10);
        assert(s.push(d).last() == d);
        assert(digits_value(s.push(d)) == digits_value(s) * 10 + ((d as u32) - 48) as nat);
        assert(n == (n / 10) * 10 + n % 10);
    } else {
        let s = seq![digit_char(n as int)];
        assert(s.drop_last() =~= Seq::<char>::empty());
        assert(decimal(n) == s);
        assert(s.last() == digit_char(n as int));
        assert((digit_char(n as int) as u32) - 48 == n);
        assert(digits_value(s) == digits_value(Seq::<char>::empty()) * 10 + ((digit_char(n as int) as u32) - 48) as nat);
    }
}

/// A signed numeral reads back as its integer, and is made of digits and a
/// leading minus sign only, ending in a digit.
pub proof fn lemma_signed_decimal_reads_back(n: int)
    ensures
        integer_text(signed_decimal(n)) == Some(n),
        signed_decimal(n).len() >= 1,
        forall|k: int|
            0 <= k < signed_decimal(n).len() ==> #[trigger] numeral_char(signed_decimal(n)[k]),
        is_digit(signed_decimal(n).last()),
        clean(signed_decimal(n)),
{
    let s = signed_decimal(n);
    lemma_decimal_reads_back(abs(n));
    let d = decimal(abs(n));
    if n < 0 {
        assert(s == seq!['-'] + d);
        assert(s.drop_first() =~= d);
        assert forall|k: int| 0 <= k < s.len() implies #[trigger] numeral_char(s[k]) by {
            if k > 0 {
                assert(s[k] == d[k - 1]);
                assert(is_digit(d[k - 1]));
            }
        }
        assert(s.last() == d.last());
        assert(is_digit(d[d.len() - 1]));
    } else {
        assert(s == d);
        assert(is_digit(d[0]));
        assert forall|k: int| 0 <= k < s.len() implies #[trigger] numeral_char(s[k]) by {
            assert(is_digit(d[k]));
        }
        assert(is_digit(d[d.len() - 1]));
    }
}

/// Trimming clean text leaves it alone.
pub proof fn lemma_trim_clean(s: Seq<char>)
    requires
        clean(s),
    ensures
        trim(s) == s,
{
    assert(trim_start(s) == s);
    assert(trim_end(s) == s);
}

/// Trimming clean text with a space in front gives the text.
pub proof fn lemma_trim_space_before(s: Seq<char>)
    requires
        clean(s),
    ensures
        trim(seq![' '] + s) == s,
{
    let t = seq![' '] + s;
    assert(t.drop_first() =~= s);
    assert(is_white_space(t[0]));
    assert(trim_start(t) == trim_start(s));
    lemma_trim_clean(s);
}

/// Trimming clean text with a space behind gives the text.
pub proof fn lemma_trim_space_after(s: Seq<char>)
    requires
        clean(s),
    ensures
        trim(s + seq![' ']) == s,
{
    let t = s + seq![' '];
    assert(t[0] == s[0]);
    assert(trim_start(t) == t);
    assert(t.drop_last() =~= s);
    assert(is_white_space(t.last()));
    assert(trim_end(t) == trim_end(s));
    lemma_trim_clean(s);
}

/// A prefix without `c` shifts where `c` is first found by its length.
pub proof fn lemma_first_index_after(a: Seq<char>, b: Seq<char>, c: char)
    requires
        forall|k: int| 0 <= k < a.len() ==> a[k] != c,
    ensures
        first_index(a + b, c) == match first_index(b, c) {
            Some(i) => Some(i + a.len()),
            None => None::<int>,
        },
    decreases a.len(),
{
    if a.len() > 0 {
        assert((a + b)[0] == a[0]);
        assert((a + b).drop_first() =~= a.drop_first() + b);
        lemma_first_index_after(a.drop_first(), b, c);
    } else {
        assert(a + b =~= b);
    }
}

/// Text split around a separator that its front part does not contain gives
/// the two parts back.
pub proof fn lemma_split_at_separator(a: Seq<char>, b: Seq<char>, c: char)
    requires
        forall|k: int| 0 <= k < a.len() ==> a[k] != c,
    ensures
        split_once(a + seq![c] + b, c) == Some((a, b)),
{
    let t = a + seq![c] + b;
    assert(t =~= a + (seq![c] + b));
    lemma_first_index_after(a, seq![c] + b, c);
    assert(first_index(seq![c] + b, c) == Some(0int));
    assert(t.take(a.len() as int) =~= a);
    assert(t.skip(a.len() as int + 1) =~= b);
}

/// No roster name contains `c` folded to itself, so text with a `c` in it
/// names nothing on the roster.
pub proof fn lemma_not_a_name(roster: Seq<(Seq<char>, Rational)>, text: Seq<char>, p: int, c: char)
    requires
        0 <= p < text.len(),
        text[p] == c,
        ascii_lower(c) == c,
        !('A' <= c && c <= 'Z'),
        !('a' <= c && c <= 'z'),
        forall|i: int, k: int|
            0 <= i < roster.len() && 0 <= k < roster[i].0.len() ==> roster[i].0[k] != c,
    ensures
        value_named(roster, text) is None,
    decreases roster.len(),
{
    if roster.len() > 0 {
        let name = roster[0].0;
        if name.len() == text.len() {
            assert(name[p] != c);
            assert(ascii_lower(name[p]) != ascii_lower(text[p]));
            assert(!folds_equal(name, text));
        }
        assert forall|i: int, k: int|
            0 <= i < roster.drop_first().len() && 0 <= k < roster.drop_first()[i].0.len()
                implies roster.drop_first()[i].0[k] != c by {
            assert(roster.drop_first()[i] == roster[i + 1]);
        }
        lemma_not_a_name(roster.drop_first(), text, p, c);
    }
}

/// No timebase name contains a slash.
pub proof fn lemma_timebase_names_have_no_slash()
    ensures
        forall|i: int, k: int|
            0 <= i < timebase_roster().len() && 0 <= k < timebase_roster()[i].0.len()
                ==> timebase_roster()[i].0[k] != '/',
{
    reveal_strlit("SECONDS");
    reveal_strlit("MILLIS");
    reveal_strlit("MICROS");
    reveal_strlit("NANOS");
    reveal_strlit("MPEG_90K");
    reveal_strlit("HZ_8K");
    reveal_strlit("HZ_11_025K");
    reveal_strlit("HZ_12K");
    reveal_strlit("HZ_16K");
    reveal_strlit("HZ_22_05K");
    reveal_strlit("HZ_24K");
    reveal_strlit("HZ_32K");
    reveal_strlit("HZ_44_1K");
    reveal_strlit("HZ_48K");
    reveal_strlit("HZ_64K");
    reveal_strlit("HZ_88_2K");
    reveal_strlit("HZ_96K");
    reveal_strlit("HZ_176_4K");
    reveal_strlit("HZ_192K");
    reveal_strlit("NTSC_FILM");
    reveal_strlit("FILM_24");
    reveal_strlit("PAL_25");
    reveal_strlit("NTSC_VIDEO");
    reveal_strlit("VIDEO_30");
    reveal_strlit("PAL_50");
    reveal_strlit("NTSC_60");
    reveal_strlit("VIDEO_60");
}

/// No rate name contains a slash.
pub proof fn lemma_rate_names_have_no_slash()
    ensures
        forall|i: int, k: int|
            0 <= i < rate_roster().len() && 0 <= k < rate_roster()[i].0.len()
                ==> rate_roster()[i].0[k] != '/',
{
    reveal_strlit("FPS_23_976");
    reveal_strlit("FPS_24");
    reveal_strlit("FPS_25");
    reveal_strlit("FPS_29_97");
    reveal_strlit("FPS_30");
    reveal_strlit("FPS_50");
    reveal_strlit("FPS_59_94");
    reveal_strlit("FPS_60");
}

/// `num/den` reads back as the rational it renders, over any roster whose
/// names have no slash in them.
proof fn lemma_rational_reads_back(r: Rational, roster: Seq<(Seq<char>, Rational)>)
    requires
        r.valid(),
        r.num <= i32::MAX,
        r.den <= i32::MAX,
        forall|i: int, k: int|
            0 <= i < roster.len() && 0 <= k < roster[i].0.len() ==> roster[i].0[k] != '/',
    ensures
        rational_or_name(rational_text(r), roster) == Some(r),
        clean(rational_text(r)),
        forall|k: int|
            0 <= k < rational_text(r).len() ==> #[trigger] rational_text(r)[k] != '@'
                && rational_text(r)[k] != ',' && rational_text(r)[k] != ')',
{
    let n = signed_decimal(r.num);
    let d = signed_decimal(r.den);
    let text = rational_text(r);
    lemma_signed_decimal_reads_back(r.num);
    lemma_signed_decimal_reads_back(r.den);
    assert(text == n + seq!['/'] + d);
    assert forall|k: int| 0 <= k < n.len() implies n[k] != '/' by {
        assert(numeral_char(n[k]));
    }
    lemma_split_at_separator(n, d, '/');
    lemma_trim_clean(n);
    lemma_trim_clean(d);
    assert(text[0] == n[0]);
    assert(text.last() == d.last());
    lemma_trim_clean(text);
    assert(text[n.len() as int] == '/');
    lemma_not_a_name(roster, text, n.len() as int, '/');
    assert(rational_fields(text) == Some((r.num, r.den)));
    assert forall|k: int| 0 <= k < text.len() implies #[trigger] text[k] != '@' && text[k] != ','
        && text[k] != ')' by {
        if k < n.len() {
            assert(text[k] == n[k]);
            assert(numeral_char(n[k]));
        } else if k > n.len() {
            assert(text[k] == d[k - n.len() - 1]);
            assert(numeral_char(d[k - n.len() - 1]));
        }
    }
}

/// A timebase's rendering, `num/den`, reads back as that timebase, field for
/// field: nothing is reduced on the way.
pub proof fn law_timebase_text_reads_back(tb: Rational)
    requires
        tb.valid(),
        tb.num <= i32::MAX,
        tb.den <= i32::MAX,
    ensures
        timebase_text(rational_text(tb)) == Some(tb),
{
    lemma_timebase_names_have_no_slash();
    lemma_rational_reads_back(tb, timebase_roster());
}

/// A rate's rendering, `num/den`, reads back as that rate, field for field.
pub proof fn law_rate_text_reads_back(rate: Rational)
    requires
        rate.valid(),
        rate.num <= i32::MAX,
        rate.den <= i32::MAX,
    ensures
        rate_text(rational_text(rate)) == Some(rate),
{
    lemma_rate_names_have_no_slash();
    lemma_rational_reads_back(rate, rate_roster());
}

/// The exact rendering of an instant or a span, `count @ num/den`, reads
/// back as that count and that timebase.
pub proof fn law_ticks_text_reads_back(t: Ticks)
    requires
        in_i64(t.count),
        t.tb.valid(),
        t.tb.num <= i32::MAX,
        t.tb.den <= i32::MAX,
    ensures
        ticks_text_read(ticks_text(t)) == Some(t),
{
    let p = signed_decimal(t.count);
    let r = rational_text(t.tb);
    lemma_signed_decimal_reads_back(t.count);
    law_timebase_text_reads_back(t.tb);
    lemma_timebase_names_have_no_slash();
    lemma_rational_reads_back(t.tb, timebase_roster());
    let front = p + seq![' '];
    let back = seq![' '] + r;
    assert(ticks_text(t) =~= front + seq!['@'] + back);
    assert forall|k: int| 0 <= k < front.len() implies front[k] != '@' by {
        if k < p.len() {
            assert(front[k] == p[k]);
            assert(numeral_char(p[k]));
        }
    }
    lemma_split_at_separator(front, back, '@');
    lemma_trim_space_after(p);
    lemma_trim_space_before(r);
    lemma_trim_clean(r);
    assert(i64_text(p) == Some(t.count));
}

/// The exact rendering of a range, `[start, end) @ num/den`, reads back as
/// that range, for every range whose endpoints do not run backwards — the
/// only ones parsing accepts.
pub proof fn law_range_text_reads_back(r: Interval)
    requires
        in_i64(r.start),
        in_i64(r.end),
        r.start <= r.end,
        r.tb.valid(),
        r.tb.num <= i32::MAX,
        r.tb.den <= i32::MAX,
    ensures
        range_text_read(range_exact_text(r)) == Some(r),
{
    let s = signed_decimal(r.start);
    let e = signed_decimal(r.end);
    let q = rational_text(r.tb);
    lemma_signed_decimal_reads_back(r.start);
    lemma_signed_decimal_reads_back(r.end);
    law_timebase_text_reads_back(r.tb);
    lemma_timebase_names_have_no_slash();
    lemma_rational_reads_back(r.tb, timebase_roster());
    let text = range_exact_text(r);
    assert(text[0] == '[');
    assert(text.last() == q.last());
    lemma_trim_clean(text);
    let body = text.drop_first();
    let endpoints = s + seq![','] + (seq![' '] + e);
    let tail = seq![' ', '@', ' '] + q;
    assert(body =~= endpoints + seq![')'] + tail);
    assert forall|k: int| 0 <= k < endpoints.len() implies endpoints[k] != ')' by {
        if k < s.len() {
            assert(endpoints[k] == s[k]);
            assert(numeral_char(s[k]));
        } else if k > s.len() + 1 {
            assert(endpoints[k] == e[k - s.len() - 2]);
            assert(numeral_char(e[k - s.len() - 2]));
        }
    }
    lemma_split_at_separator(endpoints, tail, ')');
    assert forall|k: int| 0 <= k < s.len() implies s[k] != ',' by {
        assert(numeral_char(s[k]));
    }
    lemma_split_at_separator(s, seq![' '] + e, ',');
    lemma_trim_clean(s);
    lemma_trim_space_before(e);
    assert(i64_text(s) == Some(r.start));
    assert(i64_text(e) == Some(r.end));
    let after = seq!['@', ' '] + q;
    assert(tail =~= seq![' '] + after);
    assert(after[0] == '@');
    assert(after.last() == q.last());
    lemma_trim_space_before(after);
    assert(after.drop_first() =~= seq![' '] + q);
    lemma_trim_space_before(q);
    lemma_trim_clean(q);
}

} // verus!
