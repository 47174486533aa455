//! The well-known rosters: the timebases and the frame rates containers and
//! codecs declare, each under the name of its constant, read both ways —
//! from a name to its value, and from a value back to its name.
//!
//! Names are matched ASCII-case-insensitively and otherwise character for
//! character: no alias and no trimming. Values are matched as rationals, so
//! `2/2000` answers to `MILLIS`.

use crate::model::{value_eq, Rational};
use crate::text::chars_of;
use crate::timebase::{Rate, Timebase};
use vstd::prelude::*;

verus! {

/// The well-known timebases, in the order their names are tried.
pub open spec fn timebase_roster() -> Seq<(Seq<char>, Rational)> {
    seq![
        ("SECONDS"@, Rational { num: 1, den: 1 }),
        ("MILLIS"@, Rational { num: 1, den: 1000 }),
        ("MICROS"@, Rational { num: 1, den: 1000000 }),
        ("NANOS"@, Rational { num: 1, den: 1000000000 }),
        ("MPEG_90K"@, Rational { num: 1, den: 90000 }),
        ("HZ_8K"@, Rational { num: 1, den: 8000 }),
        ("HZ_11_025K"@, Rational { num: 1, den: 11025 }),
        ("HZ_12K"@, Rational { num: 1, den: 12000 }),
        ("HZ_16K"@, Rational { num: 1, den: 16000 }),
        ("HZ_22_05K"@, Rational { num: 1, den: 22050 }),
        ("HZ_24K"@, Rational { num: 1, den: 24000 }),
        ("HZ_32K"@, Rational { num: 1, den: 32000 }),
        ("HZ_44_1K"@, Rational { num: 1, den: 44100 }),
        ("HZ_48K"@, Rational { num: 1, den: 48000 }),
        ("HZ_64K"@, Rational { num: 1, den: 64000 }),
        ("HZ_88_2K"@, Rational { num: 1, den: 88200 }),
        ("HZ_96K"@, Rational { num: 1, den: 96000 }),
        ("HZ_176_4K"@, Rational { num: 1, den: 176400 }),
        ("HZ_192K"@, Rational { num: 1, den: 192000 }),
        ("NTSC_FILM"@, Rational { num: 1001, den: 24000 }),
        ("FILM_24"@, Rational { num: 1, den: 24 }),
        ("PAL_25"@, Rational { num: 1, den: 25 }),
        ("NTSC_VIDEO"@, Rational { num: 1001, den: 30000 }),
        ("VIDEO_30"@, Rational { num: 1, den: 30 }),
        ("PAL_50"@, Rational { num: 1, den: 50 }),
        ("NTSC_60"@, Rational { num: 1001, den: 60000 }),
        ("VIDEO_60"@, Rational { num: 1, den: 60 }),
    ]
}

/// The well-known frame rates, in the order their names are tried.
pub open spec fn rate_roster() -> Seq<(Seq<char>, Rational)> {
    seq![
        ("FPS_23_976"@, Rational { num: 24000, den: 1001 }),
        ("FPS_24"@, Rational { num: 24, den: 1 }),
        ("FPS_25"@, Rational { num: 25, den: 1 }),
        ("FPS_29_97"@, Rational { num: 30000, den: 1001 }),
        ("FPS_30"@, Rational { num: 30, den: 1 }),
        ("FPS_50"@, Rational { num: 50, den: 1 }),
        ("FPS_59_94"@, Rational { num: 60000, den: 1001 }),
        ("FPS_60"@, Rational { num: 60, den: 1 }),
    ]
}

/// An ASCII upper-case letter in lower case; every other character as it is.
pub open spec fn ascii_lower(c: char) -> char {
    if 'A' <= c && c <= 'Z' {
        ((c as u32) + 32) as char
    } else {
        c
    }
}

/// Two texts equal once ASCII letters are folded to one case.
pub open spec fn folds_equal(a: Seq<char>, b: Seq<char>) -> bool {
    &&& a.len() == b.len()
    &&& forall|i: int| 0 <= i < a.len() ==> #[trigger] ascii_lower(a[i]) == ascii_lower(b[i])
}

/// The value of the first roster entry whose name `name` folds equal to.
pub open spec fn value_named(roster: Seq<(Seq<char>, Rational)>, name: Seq<char>) -> Option<
    Rational,
>
    decreases roster.len(),
{
    if roster.len() == 0 {
        None
    } else if folds_equal(roster[0].0, name) {
        Some(roster[0].1)
    } else {
        value_named(roster.drop_first(), name)
    }
}

/// The name of the first roster entry whose value equals `value` as a
/// rational.
pub open spec fn name_of(roster: Seq<(Seq<char>, Rational)>, value: Rational) -> Option<
    Seq<char>,
>
    decreases roster.len(),
{
    if roster.len() == 0 {
        None
    } else if value_eq(roster[0].1, value) {
        Some(roster[0].0)
    } else {
        name_of(roster.drop_first(), value)
    }
}

/// Entry `i` of the timebase roster.
fn timebase_entry(i: usize) -> (r: (&'static str, Timebase))
    requires
        i < timebase_roster().len(),
    ensures
        r.0@ == timebase_roster()[i as int].0,
        r.1@ == timebase_roster()[i as int].1,
{
    match i {
        0 => ("SECONDS", Timebase::SECONDS()),
        1 => ("MILLIS", Timebase::MILLIS()),
        2 => ("MICROS", Timebase::MICROS()),
        3 => ("NANOS", Timebase::NANOS()),
        4 => ("MPEG_90K", Timebase::MPEG_90K()),
        5 => ("HZ_8K", Timebase::HZ_8K()),
        6 => ("HZ_11_025K", Timebase::HZ_11_025K()),
        7 => ("HZ_12K", Timebase::HZ_12K()),
        8 => ("HZ_16K", Timebase::HZ_16K()),
        9 => ("HZ_22_05K", Timebase::HZ_22_05K()),
        10 => ("HZ_24K", Timebase::HZ_24K()),
        11 => ("HZ_32K", Timebase::HZ_32K()),
        12 => ("HZ_44_1K", Timebase::HZ_44_1K()),
        13 => ("HZ_48K", Timebase::HZ_48K()),
        14 => ("HZ_64K", Timebase::HZ_64K()),
        15 => ("HZ_88_2K", Timebase::HZ_88_2K()),
        16 => ("HZ_96K", Timebase::HZ_96K()),
        17 => ("HZ_176_4K", Timebase::HZ_176_4K()),
        18 => ("HZ_192K", Timebase::HZ_192K()),
        19 => ("NTSC_FILM", Timebase::NTSC_FILM()),
        20 => ("FILM_24", Timebase::FILM_24()),
        21 => ("PAL_25", Timebase::PAL_25()),
        22 => ("NTSC_VIDEO", Timebase::NTSC_VIDEO()),
        23 => ("VIDEO_30", Timebase::VIDEO_30()),
        24 => ("PAL_50", Timebase::PAL_50()),
        25 => ("NTSC_60", Timebase::NTSC_60()),
        _ => ("VIDEO_60", Timebase::VIDEO_60()),
    }
}

/// Entry `i` of the rate roster.
fn rate_entry(i: usize) -> (r: (&'static str, Rate))
    requires
        i < rate_roster().len(),
    ensures
        r.0@ == rate_roster()[i as int].0,
        r.1@ == rate_roster()[i as int].1,
{
    match i {
        0 => ("FPS_23_976", Rate::FPS_23_976()),
        1 => ("FPS_24", Rate::FPS_24()),
        2 => ("FPS_25", Rate::FPS_25()),
        3 => ("FPS_29_97", Rate::FPS_29_97()),
        4 => ("FPS_30", Rate::FPS_30()),
        5 => ("FPS_50", Rate::FPS_50()),
        6 => ("FPS_59_94", Rate::FPS_59_94()),
        _ => ("FPS_60", Rate::FPS_60()),
    }
}

/// Whether `a` equals `b[lo..hi]` once ASCII letters are folded to one case.
fn eq_ignore_ascii_case(a: &Vec<char>, b: &Vec<char>, lo: usize, hi: usize) -> (r: bool)
    requires
        lo <= hi <= b.len(),
    ensures
        r == folds_equal(a@, b@.subrange(lo as int, hi as int)),
{
    if a.len() != hi - lo {
        return false;
    }
    let mut i: usize = 0;
    while i < a.len()
        invariant
            a.len() == hi - lo,
            lo <= hi <= b.len(),
            0 <= i <= a.len(),
            forall|j: int|
                0 <= j < i ==> #[trigger] ascii_lower(a@[j]) == ascii_lower(
                    b@.subrange(lo as int, hi as int)[j],
                ),
        decreases a.len() - i,
    {
        if lower_char(a[i]) != lower_char(b[lo + i]) {
            return false;
        }
        i = i + 1;
    }
    true
}

/// `c` with an ASCII upper-case letter folded to lower case.
fn lower_char(c: char) -> (r: char)
    ensures
        r == ascii_lower(c),
{
    if 'A' <= c && c <= 'Z' {
        ((c as u8) + 32) as char
    } else {
        c
    }
}

/// Dropping entries that do not match leaves the lookup's answer unchanged.
proof fn lemma_value_named_skip(roster: Seq<(Seq<char>, Rational)>, name: Seq<char>, i: int)
    requires
        0 <= i < roster.len(),
        !folds_equal(roster[i].0, name),
    ensures
        value_named(roster.skip(i), name) == value_named(roster.skip(i + 1), name),
{
    assert(roster.skip(i).drop_first() =~= roster.skip(i + 1));
}

/// Dropping entries of another value leaves the lookup's answer unchanged.
proof fn lemma_name_of_skip(roster: Seq<(Seq<char>, Rational)>, value: Rational, i: int)
    requires
        0 <= i < roster.len(),
        !value_eq(roster[i].1, value),
    ensures
        name_of(roster.skip(i), value) == name_of(roster.skip(i + 1), value),
{
    assert(roster.skip(i).drop_first() =~= roster.skip(i + 1));
}

/// The well-known timebase named `text[lo..hi]`.
pub(crate) fn timebase_by_name(text: &Vec<char>, lo: usize, hi: usize) -> (r: Option<Timebase>)
    requires
        lo <= hi <= text.len(),
    ensures
        match value_named(timebase_roster(), text@.subrange(lo as int, hi as int)) {
            Some(v) => r matches Some(tb) && tb@ == v,
            None => r is None,
        },
{
    let ghost wanted = text@.subrange(lo as int, hi as int);
    let mut i: usize = 0;
    proof {
        assert(timebase_roster().skip(0) =~= timebase_roster());
    }
    while i < 27
        invariant
            0 <= i <= 27,
            lo <= hi <= text.len(),
            wanted == text@.subrange(lo as int, hi as int),
            value_named(timebase_roster(), wanted) == value_named(
                timebase_roster().skip(i as int),
                wanted,
            ),
        decreases 27 - i,
    {
        let (known, tb) = timebase_entry(i);
        let known_chars = chars_of(known);
        if eq_ignore_ascii_case(&known_chars, text, lo, hi) {
            proof {
                assert(timebase_roster().skip(i as int)[0] == timebase_roster()[i as int]);
            }
            return Some(tb);
        }
        proof {
            lemma_value_named_skip(timebase_roster(), wanted, i as int);
        }
        i = i + 1;
    }
    proof {
        assert(timebase_roster().skip(27) =~= Seq::<(Seq<char>, Rational)>::empty());
    }
    None
}

/// The well-known rate named `text[lo..hi]`.
pub(crate) fn rate_by_name(text: &Vec<char>, lo: usize, hi: usize) -> (r: Option<Rate>)
    requires
        lo <= hi <= text.len(),
    ensures
        match value_named(rate_roster(), text@.subrange(lo as int, hi as int)) {
            Some(v) => r matches Some(rate) && rate@ == v,
            None => r is None,
        },
{
    let ghost wanted = text@.subrange(lo as int, hi as int);
    let mut i: usize = 0;
    proof {
        assert(rate_roster().skip(0) =~= rate_roster());
    }
    while i < 8
        invariant
            0 <= i <= 8,
            lo <= hi <= text.len(),
            wanted == text@.subrange(lo as int, hi as int),
            value_named(rate_roster(), wanted) == value_named(rate_roster().skip(i as int), wanted),
        decreases 8 - i,
    {
        let (known, rate) = rate_entry(i);
        let known_chars = chars_of(known);
        if eq_ignore_ascii_case(&known_chars, text, lo, hi) {
            proof {
                assert(rate_roster().skip(i as int)[0] == rate_roster()[i as int]);
            }
            return Some(rate);
        }
        proof {
            lemma_value_named_skip(rate_roster(), wanted, i as int);
        }
        i = i + 1;
    }
    proof {
        assert(rate_roster().skip(8) =~= Seq::<(Seq<char>, Rational)>::empty());
    }
    None
}

impl Timebase {
    /// The well-known timebase named `name` — `"MPEG_90K"`, `"mpeg_90k"` —
    /// matched ASCII-case-insensitively and otherwise exactly; `None` for
    /// anything else, a `num/den` rendering included.
    pub fn from_name(name: &str) -> (r: Option<Timebase>)
        ensures
            match value_named(timebase_roster(), name@) {
                Some(v) => r matches Some(tb) && tb@ == v,
                None => r is None,
            },
    {
        let wanted = chars_of(name);
        proof {
            assert(wanted@.subrange(0, wanted@.len() as int) =~= wanted@);
        }
        timebase_by_name(&wanted, 0, wanted.len())
    }

    /// The name of the well-known timebase this one equals as a rational —
    /// `2/2000` answers `MILLIS` — if any.
    pub fn well_known_name(&self) -> (r: Option<&'static str>)
        ensures
            match name_of(timebase_roster(), self@) {
                Some(n) => r matches Some(s) && s@ == n,
                None => r is None,
            },
    {
        let mut i: usize = 0;
        proof {
            assert(timebase_roster().skip(0) =~= timebase_roster());
        }
        while i < 27
            invariant
                0 <= i <= 27,
                name_of(timebase_roster(), self@) == name_of(timebase_roster().skip(i as int), self@),
            decreases 27 - i,
        {
            let (name, tb) = timebase_entry(i);
            if tb == *self {
                proof {
                    assert(timebase_roster().skip(i as int)[0] == timebase_roster()[i as int]);
                }
                return Some(name);
            }
            proof {
                lemma_name_of_skip(timebase_roster(), self@, i as int);
            }
            i = i + 1;
        }
        proof {
            assert(timebase_roster().skip(27) =~= Seq::<(Seq<char>, Rational)>::empty());
        }
        None
    }
}

impl Rate {
    /// The well-known rate named `name` — `"FPS_29_97"`, `"fps_29_97"` —
    /// matched ASCII-case-insensitively and otherwise exactly. Timebase names
    /// are not rates: `"MILLIS"` is `None` here.
    pub fn from_name(name: &str) -> (r: Option<Rate>)
        ensures
            match value_named(rate_roster(), name@) {
                Some(v) => r matches Some(rate) && rate@ == v,
                None => r is None,
            },
    {
        let wanted = chars_of(name);
        proof {
            assert(wanted@.subrange(0, wanted@.len() as int) =~= wanted@);
        }
        rate_by_name(&wanted, 0, wanted.len())
    }

    /// The name of the well-known rate this one equals as a rational —
    /// `60000/2002` answers `FPS_29_97` — if any.
    pub fn well_known_name(&self) -> (r: Option<&'static str>)
        ensures
            match name_of(rate_roster(), self@) {
                Some(n) => r matches Some(s) && s@ == n,
                None => r is None,
            },
    {
        let mine = self.as_rational();
        let mut i: usize = 0;
        proof {
            assert(rate_roster().skip(0) =~= rate_roster());
        }
        while i < 8
            invariant
                0 <= i <= 8,
                mine@ == self@,
                name_of(rate_roster(), self@) == name_of(rate_roster().skip(i as int), self@),
            decreases 8 - i,
        {
            let (name, rate) = rate_entry(i);
            if rate.as_rational() == mine {
                proof {
                    assert(rate_roster().skip(i as int)[0] == rate_roster()[i as int]);
                }
                return Some(name);
            }
            proof {
                lemma_name_of_skip(rate_roster(), self@, i as int);
            }
            i = i + 1;
        }
        proof {
            assert(rate_roster().skip(8) =~= Seq::<(Seq<char>, Rational)>::empty());
        }
        None
    }
}

} // verus!
