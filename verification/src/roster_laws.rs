//! What the well-known rosters promise as tables: each is one-to-one — no
//! two entries equal as rationals, no two names folding together — so a name
//! reads back as its value and a value back as its name.

use crate::arith::gcd;
use crate::laws::law_equal_timebases_reduce_alike;
use crate::model::{value_eq, Rational};
use crate::roster::{ascii_lower, folds_equal, name_of, rate_roster, timebase_roster, value_named};
use vstd::prelude::*;

verus! {

broadcast use vstd::string::group_string_axioms;

/// Which roster entry a rational in lowest terms is: the timebases are
/// `0..27`, the rates `27..35`, anything else `-1`.
spec fn entry_of_value(v: Rational) -> int {
    if v.num == 1 && v.den == 1 {
        0
    } else if v.num == 1 && v.den == 1000 {
        1
    } else if v.num == 1 && v.den == 1000000 {
        2
    } else if v.num == 1 && v.den == 1000000000 {
        3
    } else if v.num == 1 && v.den == 90000 {
        4
    } else if v.num == 1 && v.den == 8000 {
        5
    } else if v.num == 1 && v.den == 11025 {
        6
    } else if v.num == 1 && v.den == 12000 {
        7
    } else if v.num == 1 && v.den == 16000 {
        8
    } else if v.num == 1 && v.den == 22050 {
        9
    } else if v.num == 1 && v.den == 24000 {
        10
    } else if v.num == 1 && v.den == 32000 {
        11
    } else if v.num == 1 && v.den == 44100 {
        12
    } else if v.num == 1 && v.den == 48000 {
        13
    } else if v.num == 1 && v.den == 64000 {
        14
    } else if v.num == 1 && v.den == 88200 {
        15
    } else if v.num == 1 && v.den == 96000 {
        16
    } else if v.num == 1 && v.den == 176400 {
        17
    } else if v.num == 1 && v.den == 192000 {
        18
    } else if v.num == 1001 && v.den == 24000 {
        19
    } else if v.num == 1 && v.den == 24 {
        20
    } else if v.num == 1 && v.den == 25 {
        21
    } else if v.num == 1001 && v.den == 30000 {
        22
    } else if v.num == 1 && v.den == 30 {
        23
    } else if v.num == 1 && v.den == 50 {
        24
    } else if v.num == 1001 && v.den == 60000 {
        25
    } else if v.num == 1 && v.den == 60 {
        26
    } else if v.num == 24000 && v.den == 1001 {
        27
    } else if v.num == 24 && v.den == 1 {
        28
    } else if v.num == 25 && v.den == 1 {
        29
    } else if v.num == 30000 && v.den == 1001 {
        30
    } else if v.num == 30 && v.den == 1 {
        31
    } else if v.num == 50 && v.den == 1 {
        32
    } else if v.num == 60000 && v.den == 1001 {
        33
    } else if v.num == 60 && v.den == 1 {
        34
    } else {
        -1
    }
}

/// Which roster entry a name is, folded for ASCII case: read off its
/// length and a few of its characters, which tell the names of both rosters
/// apart. The timebases are `0..27`, the rates `27..35`; any name that folds
/// together with an entry's gets that entry's number.
spec fn entry_of_name(name: Seq<char>) -> int {
    if name.len() == 5 {
        if ascii_lower(name[0]) == 'n' {
            3
        } else if ascii_lower(name[0]) == 'h' {
            5
        } else {
            -1
        }
    } else if name.len() == 6 {
        if ascii_lower(name[0]) == 'm'
            && ascii_lower(name[3]) == 'l'
            && ascii_lower(name[4]) == 'i'
            && ascii_lower(name[5]) == 's' {
            1
        } else if ascii_lower(name[0]) == 'm'
            && ascii_lower(name[3]) == 'r'
            && ascii_lower(name[4]) == 'o'
            && ascii_lower(name[5]) == 's' {
            2
        } else if ascii_lower(name[0]) == 'h'
            && ascii_lower(name[3]) == '1'
            && ascii_lower(name[4]) == '2'
            && ascii_lower(name[5]) == 'k' {
            7
        } else if ascii_lower(name[0]) == 'h'
            && ascii_lower(name[3]) == '1'
            && ascii_lower(name[4]) == '6'
            && ascii_lower(name[5]) == 'k' {
            8
        } else if ascii_lower(name[0]) == 'h'
            && ascii_lower(name[3]) == '2'
            && ascii_lower(name[4]) == '4'
            && ascii_lower(name[5]) == 'k' {
            10
        } else if ascii_lower(name[0]) == 'h'
            && ascii_lower(name[3]) == '3'
            && ascii_lower(name[4]) == '2'
            && ascii_lower(name[5]) == 'k' {
            11
        } else if ascii_lower(name[0]) == 'h'
            && ascii_lower(name[3]) == '4'
            && ascii_lower(name[4]) == '8'
            && ascii_lower(name[5]) == 'k' {
            13
        } else if ascii_lower(name[0]) == 'h'
            && ascii_lower(name[3]) == '6'
            && ascii_lower(name[4]) == '4'
            && ascii_lower(name[5]) == 'k' {
            14
        } else if ascii_lower(name[0]) == 'h'
            && ascii_lower(name[3]) == '9'
            && ascii_lower(name[4]) == '6'
            && ascii_lower(name[5]) == 'k' {
            16
        } else if ascii_lower(name[0]) == 'p'
            && ascii_lower(name[3]) == '_'
            && ascii_lower(name[4]) == '2'
            && ascii_lower(name[5]) == '5' {
            21
        } else if ascii_lower(name[0]) == 'p'
            && ascii_lower(name[3]) == '_'
            && ascii_lower(name[4]) == '5'
            && ascii_lower(name[5]) == '0' {
            24
        } else if ascii_lower(name[0]) == 'f'
            && ascii_lower(name[3]) == '_'
            && ascii_lower(name[4]) == '2'
            && ascii_lower(name[5]) == '4' {
            28
        } else if ascii_lower(name[0]) == 'f'
            && ascii_lower(name[3]) == '_'
            && ascii_lower(name[4]) == '2'
            && ascii_lower(name[5]) == '5' {
            29
        } else if ascii_lower(name[0]) == 'f'
            && ascii_lower(name[3]) == '_'
            && ascii_lower(name[4]) == '3'
            && ascii_lower(name[5]) == '0' {
            31
        } else if ascii_lower(name[0]) == 'f'
            && ascii_lower(name[3]) == '_'
            && ascii_lower(name[4]) == '5'
            && ascii_lower(name[5]) == '0' {
            32
        } else if ascii_lower(name[0]) == 'f'
            && ascii_lower(name[3]) == '_'
            && ascii_lower(name[4]) == '6'
            && ascii_lower(name[5]) == '0' {
            34
        } else {
            -1
        }
    } else if name.len() == 7 {
        if ascii_lower(name[0]) == 's' {
            0
        } else if ascii_lower(name[0]) == 'h' {
            18
        } else if ascii_lower(name[0]) == 'f' {
            20
        } else if ascii_lower(name[0]) == 'n' {
            25
        } else {
            -1
        }
    } else if name.len() == 8 {
        if ascii_lower(name[6]) == '0' {
            4
        } else if ascii_lower(name[6]) == '1' {
            12
        } else if ascii_lower(name[6]) == '2' {
            15
        } else if ascii_lower(name[6]) == '3' {
            23
        } else if ascii_lower(name[6]) == '6' {
            26
        } else {
            -1
        }
    } else if name.len() == 9 {
        if ascii_lower(name[0]) == 'h' && ascii_lower(name[4]) == '2' {
            9
        } else if ascii_lower(name[0]) == 'h' && ascii_lower(name[4]) == '7' {
            17
        } else if ascii_lower(name[0]) == 'n' && ascii_lower(name[4]) == '_' {
            19
        } else if ascii_lower(name[0]) == 'f' && ascii_lower(name[4]) == '2' {
            30
        } else if ascii_lower(name[0]) == 'f' && ascii_lower(name[4]) == '5' {
            33
        } else {
            -1
        }
    } else if name.len() == 10 {
        if ascii_lower(name[0]) == 'h' {
            6
        } else if ascii_lower(name[0]) == 'n' {
            22
        } else if ascii_lower(name[0]) == 'f' {
            27
        } else {
            -1
        }
    } else {
        -1
    }
}

/// Each roster entry is in lowest terms and is told apart by both codes:
/// entry `k` of the timebases has code `k`, entry `k` of the rates `27 + k`.
proof fn lemma_entry_codes()
    ensures
        forall|k: int| 0 <= k < 27 ==> entry_of_value(#[trigger] timebase_roster()[k].1.reduced()) == k,
        forall|k: int| 0 <= k < 27 ==> #[trigger] entry_of_name(timebase_roster()[k].0) == k,
        forall|k: int| 0 <= k < 8 ==> entry_of_value(#[trigger] rate_roster()[k].1.reduced()) == 27 + k,
        forall|k: int| 0 <= k < 8 ==> #[trigger] entry_of_name(rate_roster()[k].0) == 27 + k,
{
    reveal_with_fuel(gcd, 12);
    let t = timebase_roster();
    let r = rate_roster();
    reveal_strlit("SECONDS");
    lemma_lowest_is_reduced(t[0].1);
    assert(entry_of_value(t[0].1.reduced()) == 0);
    assert(entry_of_name(t[0].0) == 0);
    reveal_strlit("MILLIS");
    lemma_lowest_is_reduced(t[1].1);
    assert(entry_of_value(t[1].1.reduced()) == 1);
    assert(entry_of_name(t[1].0) == 1);
    reveal_strlit("MICROS");
    lemma_lowest_is_reduced(t[2].1);
    assert(entry_of_value(t[2].1.reduced()) == 2);
    assert(entry_of_name(t[2].0) == 2);
    reveal_strlit("NANOS");
    lemma_lowest_is_reduced(t[3].1);
    assert(entry_of_value(t[3].1.reduced()) == 3);
    assert(entry_of_name(t[3].0) == 3);
    reveal_strlit("MPEG_90K");
    lemma_lowest_is_reduced(t[4].1);
    assert(entry_of_value(t[4].1.reduced()) == 4);
    assert(entry_of_name(t[4].0) == 4);
    reveal_strlit("HZ_8K");
    lemma_lowest_is_reduced(t[5].1);
    assert(entry_of_value(t[5].1.reduced()) == 5);
    assert(entry_of_name(t[5].0) == 5);
    reveal_strlit("HZ_11_025K");
    lemma_lowest_is_reduced(t[6].1);
    assert(entry_of_value(t[6].1.reduced()) == 6);
    assert(entry_of_name(t[6].0) == 6);
    reveal_strlit("HZ_12K");
    lemma_lowest_is_reduced(t[7].1);
    assert(entry_of_value(t[7].1.reduced()) == 7);
    assert(entry_of_name(t[7].0) == 7);
    reveal_strlit("HZ_16K");
    lemma_lowest_is_reduced(t[8].1);
    assert(entry_of_value(t[8].1.reduced()) == 8);
    assert(entry_of_name(t[8].0) == 8);
    reveal_strlit("HZ_22_05K");
    lemma_lowest_is_reduced(t[9].1);
    assert(entry_of_value(t[9].1.reduced()) == 9);
    assert(entry_of_name(t[9].0) == 9);
    reveal_strlit("HZ_24K");
    lemma_lowest_is_reduced(t[10].1);
    assert(entry_of_value(t[10].1.reduced()) == 10);
    assert(entry_of_name(t[10].0) == 10);
    reveal_strlit("HZ_32K");
    lemma_lowest_is_reduced(t[11].1);
    assert(entry_of_value(t[11].1.reduced()) == 11);
    assert(entry_of_name(t[11].0) == 11);
    reveal_strlit("HZ_44_1K");
    lemma_lowest_is_reduced(t[12].1);
    assert(entry_of_value(t[12].1.reduced()) == 12);
    assert(entry_of_name(t[12].0) == 12);
    reveal_strlit("HZ_48K");
    lemma_lowest_is_reduced(t[13].1);
    assert(entry_of_value(t[13].1.reduced()) == 13);
    assert(entry_of_name(t[13].0) == 13);
    reveal_strlit("HZ_64K");
    lemma_lowest_is_reduced(t[14].1);
    assert(entry_of_value(t[14].1.reduced()) == 14);
    assert(entry_of_name(t[14].0) == 14);
    reveal_strlit("HZ_88_2K");
    lemma_lowest_is_reduced(t[15].1);
    assert(entry_of_value(t[15].1.reduced()) == 15);
    assert(entry_of_name(t[15].0) == 15);
    reveal_strlit("HZ_96K");
    lemma_lowest_is_reduced(t[16].1);
    assert(entry_of_value(t[16].1.reduced()) == 16);
    assert(entry_of_name(t[16].0) == 16);
    reveal_strlit("HZ_176_4K");
    lemma_lowest_is_reduced(t[17].1);
    assert(entry_of_value(t[17].1.reduced()) == 17);
    assert(entry_of_name(t[17].0) == 17);
    reveal_strlit("HZ_192K");
    lemma_lowest_is_reduced(t[18].1);
    assert(entry_of_value(t[18].1.reduced()) == 18);
    assert(entry_of_name(t[18].0) == 18);
    reveal_strlit("NTSC_FILM");
    assert(gcd(1001, 24000) == gcd(24000, 1001));
    lemma_lowest_is_reduced(t[19].1);
    assert(entry_of_value(t[19].1.reduced()) == 19);
    assert(entry_of_name(t[19].0) == 19);
    reveal_strlit("FILM_24");
    lemma_lowest_is_reduced(t[20].1);
    assert(entry_of_value(t[20].1.reduced()) == 20);
    assert(entry_of_name(t[20].0) == 20);
    reveal_strlit("PAL_25");
    lemma_lowest_is_reduced(t[21].1);
    assert(entry_of_value(t[21].1.reduced()) == 21);
    assert(entry_of_name(t[21].0) == 21);
    reveal_strlit("NTSC_VIDEO");
    assert(gcd(1001, 30000) == gcd(30000, 1001));
    lemma_lowest_is_reduced(t[22].1);
    assert(entry_of_value(t[22].1.reduced()) == 22);
    assert(entry_of_name(t[22].0) == 22);
    reveal_strlit("VIDEO_30");
    lemma_lowest_is_reduced(t[23].1);
    assert(entry_of_value(t[23].1.reduced()) == 23);
    assert(entry_of_name(t[23].0) == 23);
    reveal_strlit("PAL_50");
    lemma_lowest_is_reduced(t[24].1);
    assert(entry_of_value(t[24].1.reduced()) == 24);
    assert(entry_of_name(t[24].0) == 24);
    reveal_strlit("NTSC_60");
    assert(gcd(1001, 60000) == gcd(60000, 1001));
    lemma_lowest_is_reduced(t[25].1);
    assert(entry_of_value(t[25].1.reduced()) == 25);
    assert(entry_of_name(t[25].0) == 25);
    reveal_strlit("VIDEO_60");
    lemma_lowest_is_reduced(t[26].1);
    assert(entry_of_value(t[26].1.reduced()) == 26);
    assert(entry_of_name(t[26].0) == 26);
    reveal_strlit("FPS_23_976");
    lemma_lowest_is_reduced(r[0].1);
    assert(entry_of_value(r[0].1.reduced()) == 27);
    assert(entry_of_name(r[0].0) == 27);
    reveal_strlit("FPS_24");
    lemma_lowest_is_reduced(r[1].1);
    assert(entry_of_value(r[1].1.reduced()) == 28);
    assert(entry_of_name(r[1].0) == 28);
    reveal_strlit("FPS_25");
    lemma_lowest_is_reduced(r[2].1);
    assert(entry_of_value(r[2].1.reduced()) == 29);
    assert(entry_of_name(r[2].0) == 29);
    reveal_strlit("FPS_29_97");
    lemma_lowest_is_reduced(r[3].1);
    assert(entry_of_value(r[3].1.reduced()) == 30);
    assert(entry_of_name(r[3].0) == 30);
    reveal_strlit("FPS_30");
    lemma_lowest_is_reduced(r[4].1);
    assert(entry_of_value(r[4].1.reduced()) == 31);
    assert(entry_of_name(r[4].0) == 31);
    reveal_strlit("FPS_50");
    lemma_lowest_is_reduced(r[5].1);
    assert(entry_of_value(r[5].1.reduced()) == 32);
    assert(entry_of_name(r[5].0) == 32);
    reveal_strlit("FPS_59_94");
    lemma_lowest_is_reduced(r[6].1);
    assert(entry_of_value(r[6].1.reduced()) == 33);
    assert(entry_of_name(r[6].0) == 33);
    reveal_strlit("FPS_60");
    lemma_lowest_is_reduced(r[7].1);
    assert(entry_of_value(r[7].1.reduced()) == 34);
    assert(entry_of_name(r[7].0) == 34);
}

/// A rational whose halves share no factor is its own lowest terms.
proof fn lemma_lowest_is_reduced(v: Rational)
    requires
        gcd(v.num as nat, v.den as nat) == 1,
    ensures
        v.reduced() == v,
{
    assert(v.num / 1 == v.num);
    assert(v.den / 1 == v.den);
}

/// Names that fold together have the same code.
proof fn lemma_folded_names_share_a_code(a: Seq<char>, b: Seq<char>)
    requires
        folds_equal(a, b),
    ensures
        entry_of_name(a) == entry_of_name(b),
{
}

/// Entries equal as rationals have the same code.
proof fn lemma_equal_values_share_a_code(a: Rational, b: Rational)
    requires
        a.valid(),
        b.valid(),
        value_eq(a, b),
    ensures
        entry_of_value(a.reduced()) == entry_of_value(b.reduced()),
{
    law_equal_timebases_reduce_alike(a, b);
}

/// No two well-known timebases are equal as rationals, and no two of their
/// names fold together under ASCII case: the table is one-to-one both ways.
pub proof fn law_well_known_timebases_are_one_to_one()
    ensures
        timebase_roster().len() == 27,
        forall|i: int, j: int|
            0 <= i < j < 27 ==> !value_eq(timebase_roster()[i].1, timebase_roster()[j].1) && !folds_equal(
                timebase_roster()[i].0,
                timebase_roster()[j].0,
            ),
{
    lemma_entry_codes();
    let t = timebase_roster();
    assert forall|i: int, j: int| 0 <= i < j < 27 implies !value_eq(t[i].1, t[j].1) && !folds_equal(
        t[i].0,
        t[j].0,
    ) by {
        if value_eq(t[i].1, t[j].1) {
            lemma_equal_values_share_a_code(t[i].1, t[j].1);
        }
        if folds_equal(t[i].0, t[j].0) {
            lemma_folded_names_share_a_code(t[i].0, t[j].0);
        }
    }
}

/// No two well-known rates are equal as rationals, and no two of their
/// names fold together under ASCII case: the table is one-to-one both ways.
pub proof fn law_well_known_rates_are_one_to_one()
    ensures
        rate_roster().len() == 8,
        forall|i: int, j: int|
            0 <= i < j < 8 ==> !value_eq(rate_roster()[i].1, rate_roster()[j].1) && !folds_equal(
                rate_roster()[i].0,
                rate_roster()[j].0,
            ),
{
    lemma_entry_codes();
    let r = rate_roster();
    assert forall|i: int, j: int| 0 <= i < j < 8 implies !value_eq(r[i].1, r[j].1) && !folds_equal(
        r[i].0,
        r[j].0,
    ) by {
        if value_eq(r[i].1, r[j].1) {
            lemma_equal_values_share_a_code(r[i].1, r[j].1);
        }
        if folds_equal(r[i].0, r[j].0) {
            lemma_folded_names_share_a_code(r[i].0, r[j].0);
        }
    }
}

/// Looking up entry `i`'s name finds entry `i`, when no earlier name folds
/// together with it.
proof fn lemma_name_finds_entry(roster: Seq<(Seq<char>, Rational)>, i: int)
    requires
        0 <= i < roster.len(),
        forall|j: int| 0 <= j < i ==> !folds_equal(#[trigger] roster[j].0, roster[i].0),
    ensures
        value_named(roster, roster[i].0) == Some(roster[i].1),
    decreases i,
{
    if i == 0 {
        assert(folds_equal(roster[0].0, roster[0].0));
    } else {
        assert(!folds_equal(roster[0].0, roster[i].0));
        let rest = roster.drop_first();
        assert(rest[i - 1] == roster[i]);
        assert forall|j: int| 0 <= j < i - 1 implies !folds_equal(#[trigger] rest[j].0, rest[i - 1].0) by {
            assert(rest[j] == roster[j + 1]);
        }
        lemma_name_finds_entry(rest, i - 1);
    }
}

/// Looking up entry `i`'s value finds entry `i`'s name, when no earlier
/// value equals it.
proof fn lemma_value_finds_entry(roster: Seq<(Seq<char>, Rational)>, i: int)
    requires
        0 <= i < roster.len(),
        forall|j: int| 0 <= j < i ==> !value_eq(#[trigger] roster[j].1, roster[i].1),
    ensures
        name_of(roster, roster[i].1) == Some(roster[i].0),
    decreases i,
{
    if i == 0 {
        assert(value_eq(roster[0].1, roster[0].1));
    } else {
        assert(!value_eq(roster[0].1, roster[i].1));
        let rest = roster.drop_first();
        assert(rest[i - 1] == roster[i]);
        assert forall|j: int| 0 <= j < i - 1 implies !value_eq(#[trigger] rest[j].1, rest[i - 1].1) by {
            assert(rest[j] == roster[j + 1]);
        }
        lemma_value_finds_entry(rest, i - 1);
    }
}

/// The entry whose name a value answers to, and which it equals.
proof fn lemma_named_entry(roster: Seq<(Seq<char>, Rational)>, v: Rational) -> (i: int)
    requires
        name_of(roster, v) is Some,
    ensures
        0 <= i < roster.len(),
        name_of(roster, v) == Some(roster[i].0),
        value_eq(roster[i].1, v),
    decreases roster.len(),
{
    if value_eq(roster[0].1, v) {
        0
    } else {
        let k = lemma_named_entry(roster.drop_first(), v);
        assert(roster.drop_first()[k] == roster[k + 1]);
        k + 1
    }
}

/// Every timebase on the roster reads both ways: its name looks up its value
/// and its value looks up its name.
pub proof fn law_timebase_names_read_both_ways(i: int)
    requires
        0 <= i < timebase_roster().len(),
    ensures
        value_named(timebase_roster(), timebase_roster()[i].0) == Some(timebase_roster()[i].1),
        name_of(timebase_roster(), timebase_roster()[i].1) == Some(timebase_roster()[i].0),
{
    law_well_known_timebases_are_one_to_one();
    lemma_name_finds_entry(timebase_roster(), i);
    lemma_value_finds_entry(timebase_roster(), i);
}

/// Every rate on the roster reads both ways.
pub proof fn law_rate_names_read_both_ways(i: int)
    requires
        0 <= i < rate_roster().len(),
    ensures
        value_named(rate_roster(), rate_roster()[i].0) == Some(rate_roster()[i].1),
        name_of(rate_roster(), rate_roster()[i].1) == Some(rate_roster()[i].0),
{
    law_well_known_rates_are_one_to_one();
    lemma_name_finds_entry(rate_roster(), i);
    lemma_value_finds_entry(rate_roster(), i);
}

/// A timebase that answers to a roster name reads back from that name as a
/// timebase equal to it.
pub proof fn law_a_named_timebase_reads_back_from_its_name(v: Rational)
    ensures
        name_of(timebase_roster(), v) matches Some(n) ==> (value_named(timebase_roster(), n) matches Some(w)
            && value_eq(w, v)),
{
    if name_of(timebase_roster(), v) is Some {
        let i = lemma_named_entry(timebase_roster(), v);
        law_timebase_names_read_both_ways(i);
    }
}

/// A rate that answers to a roster name reads back from that name as a rate
/// equal to it.
pub proof fn law_a_named_rate_reads_back_from_its_name(v: Rational)
    ensures
        name_of(rate_roster(), v) matches Some(n) ==> (value_named(rate_roster(), n) matches Some(w)
            && value_eq(w, v)),
{
    if name_of(rate_roster(), v) is Some {
        let i = lemma_named_entry(rate_roster(), v);
        law_rate_names_read_both_ways(i);
    }
}

/// The two rosters share no name, even folded for ASCII case: a timebase
/// name is no rate and a rate name is no timebase, so neither lookup can
/// answer with the reciprocal of what was meant.
pub proof fn law_the_rosters_share_no_name()
    ensures
        forall|i: int, j: int|
            0 <= i < 27 && 0 <= j < 8 ==> !folds_equal(timebase_roster()[i].0, rate_roster()[j].0),
{
    lemma_entry_codes();
    let t = timebase_roster();
    let r = rate_roster();
    assert forall|i: int, j: int| 0 <= i < 27 && 0 <= j < 8 implies !folds_equal(t[i].0, r[j].0) by {
        if folds_equal(t[i].0, r[j].0) {
            lemma_folded_names_share_a_code(t[i].0, r[j].0);
        }
    }
}

} // verus!
