//! Dates of the Gregorian calendar and timestamps in ISO 8601.

use std::time::SystemTime;

use vstd::arithmetic::div_mod::{lemma_hoist_over_denominator, lemma_mod_multiples_vanish};
use vstd::prelude::*;

use crate::text::{
    digit_value, law_padded_order, lemma_padded_len, lemma_precedes_rest, lemma_precedes_start,
    lemma_precedes_strict, padded, pow10, precedes, push_padded,
};

verus! {

/// A day by its year, month and day of the month.
pub struct Date {
    pub year: int,
    pub month: int,
    pub day: int,
}

/// Whether a year has a leap day.
pub open spec fn is_leap(y: int) -> bool {
    y % 4 == 0 && (y % 100 != 0 || y % 400 == 0)
}

/// The number of days in a year.
pub open spec fn days_in_year(y: int) -> int {
    if is_leap(y) {
        366
    } else {
        365
    }
}

/// The number of days in a month.
pub open spec fn days_in_month(y: int, m: int) -> int {
    if m == 2 {
        if is_leap(y) {
            29
        } else {
            28
        }
    } else if m == 4 || m == 6 || m == 9 || m == 11 {
        30
    } else {
        31
    }
}

/// Whether there is such a day, from 1970 on.
pub open spec fn valid_date(date: Date) -> bool {
    &&& 1970 <= date.year
    &&& 1 <= date.month <= 12
    &&& 1 <= date.day <= days_in_month(date.year, date.month)
}

/// The number of days from 1970 to the start of a year.
pub open spec fn days_to_year(y: int) -> int
    decreases y - 1970,
{
    if y <= 1970 {
        0
    } else {
        days_to_year(y - 1) + days_in_year(y - 1)
    }
}

/// The number of days from the start of a year to the start of a month.
pub open spec fn days_to_month(y: int, m: int) -> int
    decreases m,
{
    if m <= 1 {
        0
    } else {
        days_to_month(y, m - 1) + days_in_month(y, m - 1)
    }
}

/// The number of days from 1970-01-01 to a date.
pub open spec fn day_number(date: Date) -> int {
    days_to_year(date.year) + days_to_month(date.year, date.month) + date.day - 1
}

/// The number of leap years from 1 to `n`.
spec fn leap_years(n: int) -> int {
    n / 4 - n / 100 + n / 400
}

proof fn lemma_days_to_year(y: int)
    requires
        y >= 1970,
    ensures
        days_to_year(y) == 365 * (y - 1970) + leap_years(y - 1) - leap_years(1969),
    decreases y,
{
    if y > 1970 {
        lemma_days_to_year(y - 1);
        lemma_leap_step(y - 1);
    }
}

proof fn lemma_year_gap(a: int, b: int)
    requires
        a < b,
        a >= 1970,
    ensures
        days_to_year(a) + days_in_year(a) <= days_to_year(b),
    decreases b,
{
    if b > a + 1 {
        lemma_year_gap(a, b - 1);
    }
}

proof fn lemma_month_gap(y: int, a: int, b: int)
    requires
        1 <= a < b,
    ensures
        days_to_month(y, a) + days_in_month(y, a) <= days_to_month(y, b),
    decreases b,
{
    if b > a + 1 {
        lemma_month_gap(y, a, b - 1);
    }
}

proof fn lemma_within_year(date: Date)
    requires
        valid_date(date),
    ensures
        0 <= days_to_month(date.year, date.month) + date.day - 1 < days_in_year(date.year),
{
    reveal_with_fuel(days_to_month, 13);
}

/// No two dates have the same number.
pub proof fn law_date_unique(a: Date, b: Date)
    requires
        valid_date(a),
        valid_date(b),
        day_number(a) == day_number(b),
    ensures
        a == b,
{
    lemma_within_year(a);
    lemma_within_year(b);
    if a.year < b.year {
        lemma_year_gap(a.year, b.year);
    } else if b.year < a.year {
        lemma_year_gap(b.year, a.year);
    } else if a.month < b.month {
        lemma_month_gap(a.year, a.month, b.month);
    } else if b.month < a.month {
        lemma_month_gap(a.year, b.month, a.month);
    }
}

/// The date with the given number.
pub open spec fn date_of(n: int) -> Date {
    choose|date: Date| valid_date(date) && #[trigger] day_number(date) == n
}

#[verifier::rlimit(30)]
proof fn lemma_year_of_era(doe: int, yoe: int, doy: int)
    requires
        0 <= doe < 146097,
        yoe == (doe - doe / 1460 + doe / 36524 - doe / 146096) / 365,
        doy == doe - (365 * yoe + yoe / 4 - yoe / 100),
    ensures
        0 <= yoe < 400,
        0 <= doy <= 365,
        doy == 365 ==> is_leap(yoe + 1),
{
}

#[verifier::rlimit(30)]
proof fn lemma_days_to_month(y: int, m: int)
    requires
        1 <= m <= 12,
    ensures
        m == 1 ==> days_to_month(y, m) == 0,
        m == 2 ==> days_to_month(y, m) == 31,
        m >= 3 ==> days_to_month(y, m) == days_in_year(y) - 306 + (153 * (m - 3) + 2) / 5,
{
    reveal_with_fuel(days_to_month, 13);
}

proof fn lemma_month(doy: int, mp: int, d: int)
    requires
        0 <= doy <= 365,
        mp == (5 * doy + 2) / 153,
        d == doy - (153 * mp + 2) / 5 + 1,
    ensures
        0 <= mp <= 11,
        1 <= d <= 31,
        mp == 11 ==> d <= 29,
        mp == 11 && d == 29 ==> doy == 365,
        mp == 1 || mp == 3 || mp == 6 || mp == 8 ==> d <= 30,
{
    assert(0 <= mp <= 11);
    assert(153 * mp <= 5 * doy + 2 < 153 * mp + 153);
    if mp <= 2 {
        assert(mp == 0 || mp == 1 || mp == 2);
    } else if mp <= 5 {
        assert(mp == 3 || mp == 4 || mp == 5);
    } else if mp <= 8 {
        assert(mp == 6 || mp == 7 || mp == 8);
    } else {
        assert(mp == 9 || mp == 10 || mp == 11);
    }
}

proof fn lemma_leap_years(era: int, yoe: int)
    ensures
        leap_years(yoe + era * 400) == 97 * era + leap_years(yoe),
        is_leap(yoe + era * 400 + 1) == is_leap(yoe + 1),
        0 <= yoe < 400 ==> leap_years(yoe) == yoe / 4 - yoe / 100,
{
    assert((yoe + era * 400) / 4 == yoe / 4 + era * 100) by {
        lemma_hoist_over_denominator(yoe, era * 100, 4);
    }
    assert((yoe + era * 400) / 100 == yoe / 100 + era * 4) by {
        lemma_hoist_over_denominator(yoe, era * 4, 100);
    }
    assert((yoe + era * 400) / 400 == yoe / 400 + era) by {
        lemma_hoist_over_denominator(yoe, era, 400);
    }
    assert((yoe + era * 400 + 1) % 4 == (yoe + 1) % 4) by {
        lemma_mod_multiples_vanish(era * 100, yoe + 1, 4);
    }
    assert((yoe + era * 400 + 1) % 100 == (yoe + 1) % 100) by {
        lemma_mod_multiples_vanish(era * 4, yoe + 1, 100);
    }
    assert((yoe + era * 400 + 1) % 400 == (yoe + 1) % 400) by {
        lemma_mod_multiples_vanish(era, yoe + 1, 400);
    }
}

proof fn lemma_fourth_step(y: int)
    ensures
        y / 4 - (y - 1) / 4 == if y % 4 == 0 { 1int } else { 0 },
{
}

proof fn lemma_hundredth_step(y: int)
    ensures
        y / 100 - (y - 1) / 100 == if y % 100 == 0 { 1int } else { 0 },
{
}

proof fn lemma_four_hundredth_step(y: int)
    ensures
        y / 400 - (y - 1) / 400 == if y % 400 == 0 { 1int } else { 0 },
{
}

proof fn lemma_divisible(y: int)
    ensures
        y % 400 == 0 ==> y % 100 == 0,
        y % 100 == 0 ==> y % 4 == 0,
{
}

proof fn lemma_leap_step(y: int)
    ensures
        leap_years(y) - leap_years(y - 1) == days_in_year(y) - 365,
{
    lemma_fourth_step(y);
    lemma_hundredth_step(y);
    lemma_four_hundredth_step(y);
    lemma_divisible(y);
}

proof fn lemma_date(era: int, yoe: int, doy: int, mp: int, d: int, mo: int, y: int)
    requires
        0 <= yoe < 400,
        0 <= doy <= 365,
        doy == 365 ==> is_leap(yoe + 1),
        mp == (5 * doy + 2) / 153,
        d == doy - (153 * mp + 2) / 5 + 1,
        mo == if mp < 10 { mp + 3 } else { mp - 9 },
        y == yoe + era * 400 + if mo <= 2 { 1int } else { 0 },
        y >= 1970,
    ensures
        valid_date(Date { year: y, month: mo, day: d }),
        day_number(Date { year: y, month: mo, day: d }) == era * 146097 + 365 * yoe + yoe / 4 - yoe
            / 100 + doy - 719468,
{
    lemma_month(doy, mp, d);
    lemma_leap_years(era, yoe);
    lemma_days_to_year(y);
    lemma_days_to_month(y, mo);
    assert(leap_years(1969) == 477);
    if mo > 2 {
        assert(mo - 3 == mp);
        lemma_leap_step(y);
    } else if mp == 11 {
        assert((153 * mp + 2) / 5 == 337);
    } else {
        assert(mp == 10);
        assert((153 * mp + 2) / 5 == 306);
    }
}

/// Finds the date with the number `days`, as year, month and day.
pub fn civil_from_days(days: u64) -> (r: (u64, u64, u64))
    requires
        days <= 213503982334601,
    ensures
        valid_date(Date { year: r.0 as int, month: r.1 as int, day: r.2 as int }),
        day_number(Date { year: r.0 as int, month: r.1 as int, day: r.2 as int }) == days,
{
    let z: u64 = days + 719468;
    let era: u64 = z / 146097;
    let doe: u64 = z - era * 146097;
    let yoe: u64 = (doe - doe / 1460 + doe / 36524 - doe / 146096) / 365;
    proof {
        lemma_year_of_era(
            doe as int,
            yoe as int,
            doe - (365 * yoe + yoe / 4 - yoe / 100),
        );
    }
    let doy: u64 = doe - (365 * yoe + yoe / 4 - yoe / 100);
    let mp: u64 = (5 * doy + 2) / 153;
    let d: u64 = doy - (153 * mp + 2) / 5 + 1;
    let mo: u64 = if mp < 10 {
        mp + 3
    } else {
        mp - 9
    };
    let y: u64 = if mo <= 2 {
        yoe + era * 400 + 1
    } else {
        yoe + era * 400
    };
    proof {
        assert(y >= 1970) by {
            assert(era >= 4);
            assert(era == 4 ==> doe >= 135080);
        }
        lemma_date(
            era as int,
            yoe as int,
            doy as int,
            mp as int,
            d as int,
            mo as int,
            y as int,
        );
    }
    (y, mo, d)
}

/// A date and a time of day, in seconds and milliseconds, in ISO 8601.
pub open spec fn iso_format(date: Date, time: int, millis: int) -> Seq<char> {
    padded(date.year as nat, 4) + "-"@ + padded(date.month as nat, 2) + "-"@ + padded(
        date.day as nat,
        2,
    ) + "T"@ + padded((time / 3600) as nat, 2) + ":"@ + padded((time % 3600 / 60) as nat, 2) + ":"@
        + padded((time % 60) as nat, 2) + "."@ + padded(millis as nat, 3) + "Z"@
}

/// The point in time `secs` seconds and `millis` milliseconds after 1970, in UTC, in
/// ISO 8601.
pub open spec fn iso_text(secs: int, millis: int) -> Seq<char> {
    iso_format(date_of(secs / 86400), secs % 86400, millis)
}

/// Writes the point in time `secs` seconds and `millis` milliseconds after 1970, in
/// UTC, in ISO 8601.
pub fn iso_at(secs: u64, millis: u32) -> (r: String)
    ensures
        r@ == iso_text(secs as int, millis as int),
{
    let time: u64 = secs % 86400;
    let (y, mo, d) = civil_from_days(secs / 86400);
    proof {
        let date = Date { year: y as int, month: mo as int, day: d as int };
        law_date_unique(date, date_of((secs / 86400) as int));
    }
    let mut out = String::new();
    push_padded(&mut out, y, 4);
    out.append("-");
    push_padded(&mut out, mo, 2);
    out.append("-");
    push_padded(&mut out, d, 2);
    out.append("T");
    push_padded(&mut out, time / 3600, 2);
    out.append(":");
    push_padded(&mut out, time % 3600 / 60, 2);
    out.append(":");
    push_padded(&mut out, time % 60, 2);
    out.append(".");
    push_padded(&mut out, millis as u64, 3);
    out.append("Z");
    proof {
        let date = date_of((secs / 86400) as int);
        assert(Seq::<char>::empty() + padded(date.year as nat, 4) =~= padded(date.year as nat, 4));
    }
    out
}

/// `std::time::SystemTime`, a reading of the system clock.
#[verifier::external_type_specification]
#[verifier::external_body]
pub struct ExSystemTime(std::time::SystemTime);

/// `SystemTime::now` reads the system clock. What it shows is not stated.
pub assume_specification[ SystemTime::now ]() -> (r: SystemTime)
;

/// How long after 1970 a point in time is, in seconds and milliseconds, or `None`
/// before that.
pub uninterp spec fn since_1970(time: SystemTime) -> Option<(u64, u32)>;

/// `SystemTime::duration_since` gives the time from the start of 1970 to `time`, here
/// as whole seconds and the milliseconds on top of them, of which there are fewer
/// than 1000. It fails where `time` is earlier.
#[verifier::external_body]
fn read_clock(time: SystemTime) -> (r: Option<(u64, u32)>)
    ensures
        r == since_1970(time),
        r matches Some(t) ==> t.1 < 1000,
{
    match time.duration_since(std::time::UNIX_EPOCH) {
        Ok(d) => Some((d.as_secs(), d.subsec_millis())),
        Err(_) => None,
    }
}

/// What a reading of the clock is in ISO 8601. A clock before 1970 has no reading.
pub open spec fn reading_text(reading: Option<(u64, u32)>) -> Option<Seq<char>> {
    match reading {
        Some((secs, millis)) => Some(iso_text(secs as int, millis as int)),
        None => None,
    }
}

/// Writes a reading of the clock, in seconds and milliseconds after 1970, in UTC, in
/// ISO 8601, where there is one.
pub fn iso_reading(reading: Option<(u64, u32)>) -> (r: Option<String>)
    ensures
        match r {
            Some(s) => reading_text(reading) == Some(s@),
            None => reading_text(reading) is None,
        },
{
    match reading {
        Some((secs, millis)) => Some(iso_at(secs, millis)),
        None => None,
    }
}

/// The present time in ISO 8601, in UTC, or `None` where the clock is set before
/// 1970.
pub fn iso_now() -> (r: Option<String>)
    ensures
        exists|now: SystemTime|
            match r {
                Some(s) => reading_text(#[trigger] since_1970(now)) == Some(s@),
                None => reading_text(since_1970(now)) is None,
            },
        r matches Some(s) ==> exists|secs: u64, millis: u32|
            millis < 1000 && s@ == #[trigger] iso_text(secs as int, millis as int),
{
    let now = SystemTime::now();
    iso_reading(read_clock(now))
}

/// The date with the number of a date is that date.
pub proof fn law_date_of_number(date: Date)
    requires
        valid_date(date),
    ensures
        date_of(day_number(date)) == date,
{
    law_date_unique(date, date_of(day_number(date)));
}

/// Every number from 0 on is that of a date.
pub proof fn law_every_day_has_a_date(n: int)
    requires
        n >= 0,
    ensures
        valid_date(date_of(n)),
        day_number(date_of(n)) == n,
{
    let z = n + 719468;
    let era = z / 146097;
    let doe = z % 146097;
    let yoe = (doe - doe / 1460 + doe / 36524 - doe / 146096) / 365;
    let doy = doe - (365 * yoe + yoe / 4 - yoe / 100);
    lemma_year_of_era(doe, yoe, doy);
    let mp = (5 * doy + 2) / 153;
    let d = doy - (153 * mp + 2) / 5 + 1;
    let mo = if mp < 10 {
        mp + 3
    } else {
        mp - 9
    };
    let y = yoe + era * 400 + if mo <= 2 {
        1int
    } else {
        0
    };
    assert(y >= 1970) by {
        assert(era >= 4);
        assert(era == 4 ==> doe >= 135080);
    }
    lemma_date(era, yoe, doy, mp, d, mo, y);
    assert(day_number(Date { year: y, month: mo, day: d }) == n);
}

/// Dates come in the order of their numbers.
pub proof fn law_date_order(a: Date, b: Date)
    requires
        valid_date(a),
        valid_date(b),
        day_number(a) < day_number(b),
    ensures
        a.year < b.year || (a.year == b.year && (a.month < b.month || (a.month == b.month && a.day
            < b.day))),
{
    lemma_within_year(a);
    lemma_within_year(b);
    if b.year < a.year {
        lemma_year_gap(b.year, a.year);
    } else if a.year == b.year && b.month < a.month {
        lemma_month_gap(a.year, b.month, a.month);
    }
}

proof fn lemma_date_bounds(date: Date)
    requires
        valid_date(date),
        date.year < 10000,
    ensures
        date.year < pow10(4),
        date.month < pow10(2),
        date.day < pow10(2),
        pow10(2) == 100,
        pow10(3) == 1000,
{
    reveal_with_fuel(pow10, 5);
}

/// Before the year 10000 a timestamp has 24 characters: the digits of a date and of a
/// time of day, with signs in fixed places.
pub proof fn law_iso_form(secs: int, millis: int)
    requires
        secs >= 0,
        0 <= millis < 1000,
        date_of(secs / 86400).year < 10000,
    ensures
        valid_date(date_of(secs / 86400)),
        day_number(date_of(secs / 86400)) == secs / 86400,
        0 <= secs % 86400 / 3600 < 24,
        0 <= secs % 86400 % 3600 / 60 < 60,
        iso_text(secs, millis).len() == 24,
        forall|i: int|
            0 <= i < 24 ==> {
                let c = #[trigger] iso_text(secs, millis)[i];
                if i == 4 || i == 7 {
                    c == '-'
                } else if i == 10 {
                    c == 'T'
                } else if i == 13 || i == 16 {
                    c == ':'
                } else if i == 19 {
                    c == '.'
                } else if i == 23 {
                    c == 'Z'
                } else {
                    digit_value(c) is Some
                }
            },
{
    let date = date_of(secs / 86400);
    let time = secs % 86400;
    law_every_day_has_a_date(secs / 86400);
    lemma_date_bounds(date);
    reveal_strlit("-");
    reveal_strlit("T");
    reveal_strlit(":");
    reveal_strlit(".");
    reveal_strlit("Z");
    lemma_padded_len(date.year as nat, 4);
    lemma_padded_len(date.month as nat, 2);
    lemma_padded_len(date.day as nat, 2);
    lemma_padded_len((time / 3600) as nat, 2);
    lemma_padded_len((time % 3600 / 60) as nat, 2);
    lemma_padded_len((time % 60) as nat, 2);
    lemma_padded_len(millis as nat, 3);
}

/// Where two texts stand to each other: they are the same, or the first comes first.
spec fn in_place(a: Seq<char>, b: Seq<char>, same: bool) -> bool {
    &&& a.len() == b.len()
    &&& if same {
        a == b
    } else {
        precedes(a, b)
    }
}

proof fn lemma_in_place(
    a: Seq<char>,
    b: Seq<char>,
    same: bool,
    m: int,
    n: int,
    width: nat,
    sign: Seq<char>,
)
    requires
        in_place(a, b, same),
        width >= 1,
        0 <= m < pow10(width),
        0 <= n < pow10(width),
        same ==> m <= n,
    ensures
        in_place(
            a + padded(m as nat, width) + sign,
            b + padded(n as nat, width) + sign,
            same && m == n,
        ),
{
    let x = padded(m as nat, width);
    let y = padded(n as nat, width);
    lemma_padded_len(m as nat, width);
    lemma_padded_len(n as nat, width);
    if !same {
        lemma_precedes_start(a, b, x, y);
        lemma_precedes_start(a + x, b + y, sign, sign);
    } else if m < n {
        law_padded_order(m as nat, n as nat, width);
        lemma_precedes_rest(a, x, y);
        lemma_precedes_start(a + x, b + y, sign, sign);
    }
}

/// Before the year 10000 a later timestamp does not come first in the order of
/// characters, and two timestamps are the same if and only if second and millisecond
/// are.
#[verifier::rlimit(30)]
pub proof fn law_iso_order(secs1: int, millis1: int, secs2: int, millis2: int)
    requires
        secs1 >= 0,
        0 <= millis1 < 1000,
        0 <= millis2 < 1000,
        secs1 * 1000 + millis1 <= secs2 * 1000 + millis2,
        date_of(secs2 / 86400).year < 10000,
    ensures
        iso_text(secs1, millis1) == iso_text(secs2, millis2) <==> secs1 == secs2 && millis1
            == millis2,
        !(secs1 == secs2 && millis1 == millis2) ==> precedes(
            iso_text(secs1, millis1),
            iso_text(secs2, millis2),
        ),
{
    let d1 = date_of(secs1 / 86400);
    let d2 = date_of(secs2 / 86400);
    let t1 = secs1 % 86400;
    let t2 = secs2 % 86400;
    law_every_day_has_a_date(secs1 / 86400);
    law_every_day_has_a_date(secs2 / 86400);
    if secs1 / 86400 < secs2 / 86400 {
        law_date_order(d1, d2);
    }
    lemma_date_bounds(d1);
    lemma_date_bounds(d2);
    let e: Seq<char> = seq![];
    let same0 = true;
    lemma_in_place(e, e, same0, d1.year, d2.year, 4, "-"@);
    let a1 = e + padded(d1.year as nat, 4) + "-"@;
    let b1 = e + padded(d2.year as nat, 4) + "-"@;
    let same1 = d1.year == d2.year;
    lemma_in_place(a1, b1, same1, d1.month, d2.month, 2, "-"@);
    let a2 = a1 + padded(d1.month as nat, 2) + "-"@;
    let b2 = b1 + padded(d2.month as nat, 2) + "-"@;
    let same2 = same1 && d1.month == d2.month;
    lemma_in_place(a2, b2, same2, d1.day, d2.day, 2, "T"@);
    let a3 = a2 + padded(d1.day as nat, 2) + "T"@;
    let b3 = b2 + padded(d2.day as nat, 2) + "T"@;
    let same3 = same2 && d1.day == d2.day;
    assert(same3 ==> secs1 / 86400 == secs2 / 86400 && t1 <= t2);
    lemma_in_place(a3, b3, same3, t1 / 3600, t2 / 3600, 2, ":"@);
    let a4 = a3 + padded((t1 / 3600) as nat, 2) + ":"@;
    let b4 = b3 + padded((t2 / 3600) as nat, 2) + ":"@;
    let same4 = same3 && t1 / 3600 == t2 / 3600;
    lemma_in_place(a4, b4, same4, t1 % 3600 / 60, t2 % 3600 / 60, 2, ":"@);
    let a5 = a4 + padded((t1 % 3600 / 60) as nat, 2) + ":"@;
    let b5 = b4 + padded((t2 % 3600 / 60) as nat, 2) + ":"@;
    let same5 = same4 && t1 % 3600 / 60 == t2 % 3600 / 60;
    lemma_in_place(a5, b5, same5, t1 % 60, t2 % 60, 2, "."@);
    let a6 = a5 + padded((t1 % 60) as nat, 2) + "."@;
    let b6 = b5 + padded((t2 % 60) as nat, 2) + "."@;
    let same6 = same5 && t1 % 60 == t2 % 60;
    assert(same6 ==> t1 == t2);
    lemma_in_place(a6, b6, same6, millis1, millis2, 3, "Z"@);
    assert(e + padded(d1.year as nat, 4) =~= padded(d1.year as nat, 4));
    assert(e + padded(d2.year as nat, 4) =~= padded(d2.year as nat, 4));
    assert(iso_text(secs1, millis1) == a6 + padded(millis1 as nat, 3) + "Z"@);
    assert(iso_text(secs2, millis2) == b6 + padded(millis2 as nat, 3) + "Z"@);
    if !(secs1 == secs2 && millis1 == millis2) {
        lemma_precedes_strict(iso_text(secs1, millis1), iso_text(secs2, millis2));
    }
}

/// The point in time at a date, hour, minute, second and millisecond is written with
/// just these, each in its place and with a fixed number of digits.
pub proof fn law_iso_fields(date: Date, hour: int, minute: int, second: int, millis: int)
    requires
        valid_date(date),
        0 <= hour < 24,
        0 <= minute < 60,
        0 <= second < 60,
    ensures
        iso_text(day_number(date) * 86400 + hour * 3600 + minute * 60 + second, millis) == padded(
            date.year as nat,
            4,
        ) + "-"@ + padded(date.month as nat, 2) + "-"@ + padded(date.day as nat, 2) + "T"@ + padded(
            hour as nat,
            2,
        ) + ":"@ + padded(minute as nat, 2) + ":"@ + padded(second as nat, 2) + "."@ + padded(
            millis as nat,
            3,
        ) + "Z"@,
{
    law_date_of_number(date);
    let time = hour * 3600 + minute * 60 + second;
    let secs = day_number(date) * 86400 + time;
    assert(secs / 86400 == day_number(date) && secs % 86400 == time);
    assert(time / 3600 == hour && time % 3600 / 60 == minute && time % 60 == second);
}

proof fn lemma_same_months(y: int, m: int)
    ensures
        days_to_month(y + 400, m) == days_to_month(y, m),
        days_in_month(y + 400, m) == days_in_month(y, m),
    decreases m,
{
    lemma_leap_years(1, y - 1);
    if m > 1 {
        lemma_same_months(y, m - 1);
    }
}

/// The calendar repeats itself after four centuries, which are 146097 days.
pub proof fn law_four_centuries(date: Date)
    requires
        valid_date(date),
    ensures
        ({
            let later = Date { year: date.year + 400, ..date };
            valid_date(later) && day_number(later) == day_number(date) + 146097
        }),
{
    lemma_days_to_year(date.year);
    lemma_days_to_year(date.year + 400);
    lemma_leap_years(1, date.year - 1);
    lemma_same_months(date.year, date.month);
}

/// The days are numbered from the first of 1970 on. A month follows the one before it,
/// and a year follows December, which has 31 days.
pub proof fn law_first_of_month(year: int, month: int)
    requires
        year >= 1970,
        1 <= month <= 12,
    ensures
        day_number(Date { year: 1970, month: 1, day: 1 }) == 0,
        day_number(Date { year: year + 1, month: 1, day: 1 }) == day_number(
            Date { year, month: 12, day: 31 },
        ) + 1,
        month < 12 ==> day_number(Date { year, month: month + 1, day: 1 }) == day_number(
            Date { year, month, day: 1 },
        ) + if month == 4 || month == 6 || month == 9 || month == 11 {
            30int
        } else if month != 2 {
            31
        } else if year % 4 != 0 || year % 100 == 0 && year % 400 != 0 {
            28
        } else {
            29
        },
{
    reveal_with_fuel(days_to_month, 13);
}

} // verus!
