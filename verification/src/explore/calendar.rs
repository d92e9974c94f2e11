//! Civil dates and seconds since 1970, in the proleptic Gregorian calendar.

use vstd::prelude::*;

verus! {

/// A date with the time of day.
pub struct Moment {
    pub year: int,
    pub month: int,
    pub day: int,
    pub hour: int,
    pub minute: int,
    pub second: int,
}

/// Days from 1970-01-01 to a date. Years are counted from March, in cycles of
/// 400 years, which have 146097 days each.
pub open spec fn days_of(y: int, m: int, d: int) -> int {
    let yy = if m <= 2 {
        y - 1
    } else {
        y
    };
    let era = yy / 400;
    let yoe = yy % 400;
    let mp = (m + 9) % 12;
    let doy = (153 * mp + 2) / 5 + d - 1;
    let doe = yoe * 365 + yoe / 4 - yoe / 100 + doy;
    era * 146097 + doe - 719468
}

/// The year of a cycle of 400 years that a day falls in.
pub open spec fn year_of_era(doe: int) -> int {
    (doe - doe / 1460 + doe / 36524 - doe / 146096) / 365
}

/// The day of its year, counted from March, that a day of a cycle is.
pub open spec fn day_of_year(doe: int) -> int {
    doe - (365 * year_of_era(doe) + year_of_era(doe) / 4 - year_of_era(doe) / 100)
}

/// The date of a number of days from 1970-01-01: year, month and day.
pub open spec fn civil_of(days: int) -> (int, int, int) {
    let z = days + 719468;
    let era = z / 146097;
    let doe = z % 146097;
    let doy = day_of_year(doe);
    let mp = (5 * doy + 2) / 153;
    let d = doy - (153 * mp + 2) / 5 + 1;
    let m = if mp < 10 {
        mp + 3
    } else {
        mp - 9
    };
    let y = year_of_era(doe) + era * 400;
    (
        if m <= 2 {
            y + 1
        } else {
            y
        },
        m,
        d,
    )
}

/// Seconds from the start of 1970 to a moment.
pub open spec fn seconds_of(m: Moment) -> int {
    days_of(m.year, m.month, m.day) * 86400 + m.hour * 3600 + m.minute * 60 + m.second
}

/// The moment that a number of seconds from the start of 1970 names.
pub open spec fn moment_of(secs: int) -> Moment {
    let (y, m, d) = civil_of(secs / 86400);
    let rest = secs % 86400;
    Moment {
        year: y,
        month: m,
        day: d,
        hour: rest / 3600,
        minute: rest % 3600 / 60,
        second: rest % 60,
    }
}

proof fn era_ranges(doe: int)
    requires
        0 <= doe < 146097,
    ensures
        0 <= year_of_era(doe) <= 399,
        0 <= day_of_year(doe) <= 365,
{
    let c = doe / 36524;
    let q = doe / 1460;
    assert(0 <= c <= 4);
    assert(0 <= q <= 100);
}

/// A month is one of twelve, a day of it one of at most 31.
pub proof fn law_civil_ranges(days: int)
    ensures
        1 <= civil_of(days).1 <= 12,
        1 <= civil_of(days).2 <= 31,
{
    era_ranges((days + 719468) % 146097);
}

/// Counting the days to the date of a number of days gives the number back.
pub proof fn law_days_of_civil(days: int)
    ensures
        ({
            let (y, m, d) = civil_of(days);
            days_of(y, m, d) == days
        }),
{
    let z = days + 719468;
    let era = z / 146097;
    let doe = z % 146097;
    era_ranges(doe);
    let yoe = year_of_era(doe);
    let doy = day_of_year(doe);
    let mp = (5 * doy + 2) / 153;
    assert(0 <= mp <= 11);
    let (y, m, d) = civil_of(days);
    let yy = if m <= 2 {
        y - 1
    } else {
        y
    };
    assert(yy == yoe + era * 400);
    assert(yy / 400 == era && yy % 400 == yoe);
    assert((m + 9) % 12 == mp);
    assert((153 * mp + 2) / 5 + d - 1 == doy);
    assert(z == era * 146097 + doe);
}

/// Counting the seconds to the moment of a number of seconds gives the number
/// back.
pub proof fn law_seconds_of_moment(secs: int)
    ensures
        seconds_of(moment_of(secs)) == secs,
        0 <= moment_of(secs).hour < 24,
        0 <= moment_of(secs).minute < 60,
        0 <= moment_of(secs).second < 60,
{
    law_days_of_civil(secs / 86400);
    let rest = secs % 86400;
    assert(rest == rest / 3600 * 3600 + rest % 3600 / 60 * 60 + rest % 60);
}

/// A year with a 29th of February.
pub open spec fn is_leap(y: int) -> bool {
    y % 4 == 0 && (y % 100 != 0 || y % 400 == 0)
}

/// How many days a month has.
pub open spec fn days_in_month(y: int, m: int) -> int {
    if m == 2 {
        if is_leap(y) {
            29
        } else {
            28
        }
    } else if m == 4 || m == 6 || m == 9 || m == 11 {
        30
    } else {
        31
    }
}

proof fn month_place(m: int, d: int)
    requires
        1 <= m <= 12,
        1 <= d <= 31,
        (m == 4 || m == 6 || m == 9 || m == 11) ==> d <= 30,
        m == 2 ==> d <= 29,
    ensures
        ({
            let mp = (m + 9) % 12;
            let doy = (153 * mp + 2) / 5 + d - 1;
            &&& 0 <= doy <= 365
            &&& doy == 365 ==> m == 2 && d == 29
            &&& (5 * doy + 2) / 153 == mp
            &&& (if mp < 10 {
                mp + 3
            } else {
                mp - 9
            }) == m
        }),
{
    assert(m == 1 || m == 2 || m == 3 || m == 4 || m == 5 || m == 6 || m == 7 || m == 8 || m == 9
        || m == 10 || m == 11 || m == 12);
}

proof fn leap_in_era(y: int)
    requires
        is_leap(y),
    ensures
        (y - 1) % 400 % 4 == 3,
        (y - 1) % 400 % 100 == 99 ==> (y - 1) % 400 == 399,
{
}

proof fn year_of_era_back(yoe: int, doy: int)
    requires
        0 <= yoe <= 399,
        0 <= doy <= 365,
        doy == 365 ==> yoe % 4 == 3,
        doy == 365 && yoe % 100 == 99 ==> yoe == 399,
    ensures
        ({
            let doe = yoe * 365 + yoe / 4 - yoe / 100 + doy;
            &&& 0 <= doe < 146097
            &&& year_of_era(doe) == yoe
        }),
{
    let doe = yoe * 365 + yoe / 4 - yoe / 100 + doy;
    let c = yoe / 100;
    let k = yoe % 100;
    let inner = 365 * k + k / 4 + doy;
    assert(yoe / 4 == 25 * c + k / 4);
    assert(doe == 36524 * c + inner);
    let q = k / 4;
    let r = k % 4;
    assert(inner == 1461 * q + 365 * r + doy);
    assert(inner <= 36524);
    if yoe == 399 && doy == 365 {
        assert(doe == 146096);
    } else {
        assert(inner < 36524);
        assert(doe / 36524 == c);
        assert(doe / 146096 == 0);
        let t = 365 * r + doy;
        assert(0 <= t <= 1460);
        assert(t == 1460 ==> r == 3 && doy == 365);
        // 36524 is 25 * 1460 + 24, and 1461 is 1460 + 1.
        assert(doe == 1460 * (25 * c + q) + (24 * c + q + t));
        let extra = 24 * c + q + t;
        assert(0 <= extra <= 24 * 3 + 24 + 1460);
        if extra < 1460 {
            assert(doe / 1460 == 25 * c + q);
            assert(doe - doe / 1460 + doe / 36524 == 365 * yoe + doy);
            if doy == 365 {
                assert(t == 365 * 3 + 365);
            }
        } else {
            assert(doe / 1460 == 25 * c + q + 1);
            assert(doe - doe / 1460 + doe / 36524 == 365 * yoe + doy - 1);
            assert(doy >= 1);
        }
    }
}

/// The date of the number of days to a date of the calendar is that date.
pub proof fn law_civil_of_days(y: int, m: int, d: int)
    requires
        1 <= m <= 12,
        1 <= d <= days_in_month(y, m),
    ensures
        civil_of(days_of(y, m, d)) == (y, m, d),
{
    let yy = if m <= 2 {
        y - 1
    } else {
        y
    };
    let era = yy / 400;
    let yoe = yy % 400;
    let mp = (m + 9) % 12;
    let doy = (153 * mp + 2) / 5 + d - 1;
    let doe = yoe * 365 + yoe / 4 - yoe / 100 + doy;
    month_place(m, d);
    assert(0 <= doy <= 365);
    assert(doy == 365 ==> m == 2 && d == 29);
    if doy == 365 {
        assert(yy == y - 1);
        assert(is_leap(y));
        leap_in_era(y);
    }
    year_of_era_back(yoe, doy);
    let z = era * 146097 + doe;
    assert(z / 146097 == era && z % 146097 == doe);
    assert(days_of(y, m, d) + 719468 == z);
}

/// Division that rounds down.
fn floor_div(a: i64, b: i64) -> (r: i64)
    requires
        b > 0,
    ensures
        r == a as int / b as int,
{
    if a >= 0 {
        (a as u64 / b as u64) as i64
    } else {
        let n = (-(a + 1)) as u64;
        let q = n / (b as u64);
        proof {
            let bi = b as int;
            let ni = n as int;
            vstd::arithmetic::div_mod::lemma_fundamental_div_mod(ni, bi);
            vstd::arithmetic::div_mod::lemma_mod_bound(ni, bi);
            vstd::arithmetic::div_mod::lemma_div_is_ordered_by_denominator(ni, 1, bi);
            assert(a as int == bi * (-(ni / bi) - 1) + (bi - 1 - ni % bi)) by (nonlinear_arith)
                requires
                    ni == -(a + 1),
                    ni == bi * (ni / bi) + ni % bi,
            ;
            vstd::arithmetic::div_mod::lemma_fundamental_div_mod_converse(
                a as int,
                bi,
                -(ni / bi) - 1,
                bi - 1 - ni % bi,
            );
        }
        -(q as i64) - 1
    }
}

/// Days from 1970-01-01 to a date.
pub fn days_from_civil(y: i64, m: u32, d: u32) -> (r: i64)
    requires
        i64::MIN <= days_of(y as int, m as int, d as int) <= i64::MAX,
    ensures
        r == days_of(y as int, m as int, d as int),
{
    let mp = ((m as u64 + 9) % 12) as i64;
    let doy = ((153 * mp as u64 + 2) / 5) as i64 + d as i64 - 1;
    assert(-1 <= doy <= 0x1_0000_0000 + 400);
    assert(-80_000_000_000_000_000 <= y <= 80_000_000_000_000_000);
    let yy: i64 = if m <= 2 {
        y - 1
    } else {
        y
    };
    let era = floor_div(yy, 400);
    assert(era as int * 400 + yy as int % 400 == yy);
    let yoe = yy - era * 400;
    let doe = yoe * 365 + (yoe as u64 / 4) as i64 - (yoe as u64 / 100) as i64 + doy;
    (era as i128 * 146097 + doe as i128 - 719468) as i64
}

/// The moment that a number of seconds from the start of 1970 names: year,
/// month, day, hour, minute and second.
pub fn epoch_to_ymdhms(secs: i64) -> (r: (i64, u32, u32, u32, u32, u32))
    ensures
        moment_of(secs as int) == (Moment {
            year: r.0 as int,
            month: r.1 as int,
            day: r.2 as int,
            hour: r.3 as int,
            minute: r.4 as int,
            second: r.5 as int,
        }),
{
    let days = floor_div(secs, 86400);
    assert(days as int * 86400 + secs as int % 86400 == secs);
    let rest = (secs as i128 - days as i128 * 86400) as u32;
    let z = days + 719468;
    let era = floor_div(z, 146097);
    assert(era as int * 146097 + z as int % 146097 == z);
    let doe = (z - era * 146097) as u32;
    proof {
        era_ranges(doe as int);
        law_civil_ranges(days as int);
    }
    let yoe = (doe - doe / 1460 + doe / 36524 - doe / 146096) / 365;
    let doy = doe - (365 * yoe + yoe / 4 - yoe / 100);
    let mp = (5 * doy + 2) / 153;
    let d = doy - (153 * mp + 2) / 5 + 1;
    let m = if mp < 10 {
        mp + 3
    } else {
        mp - 9
    };
    let y = yoe as i64 + era * 400;
    let year = if m <= 2 {
        y + 1
    } else {
        y
    };
    (year, m, d, rest / 3600, rest % 3600 / 60, rest % 60)
}

/// The days are counted one by one from the start of 1970: within a month, from month to
/// month and from year to year. A year has a 29th of February where 4 divides it, but 100
/// does not unless 400 does.
pub proof fn law_days_are_counted(y: int, m: int, d: int)
    requires
        1 <= m <= 12,
    ensures
        days_of(1970, 1, 1) == 0,
        days_of(y, m, d + 1) == days_of(y, m, d) + 1,
        days_of(y + 1, 1, 1) == days_of(y, 12, 31) + 1,
        m == 2 ==> days_of(y, 3, 1) - days_of(y, 2, 1) == (if y % 400 == 0 || (y % 4 == 0 && y % 100
            != 0) {
            29int
        } else {
            28int
        }),
        m == 4 || m == 6 || m == 9 || m == 11 ==> days_of(y, m + 1, 1) - days_of(y, m, 1) == 30,
        m == 1 || m == 3 || m == 5 || m == 7 || m == 8 || m == 10 ==> days_of(y, m + 1, 1)
            - days_of(y, m, 1) == 31,
{
    if m == 2 {
        let a = (y - 1) / 400;
        let b = y / 400;
        assert(y % 400 == 0 || (y - 1) % 400 == y % 400 - 1);
    }
}

/// The time of day of a moment is what is left of the seconds once whole days are taken
/// away, in hours, minutes and seconds.
pub proof fn law_time_of_day_is_the_rest(secs: int)
    ensures
        ({
            let m = moment_of(secs);
            &&& m.hour * 3600 + m.minute * 60 + m.second == secs % 86400
            &&& 0 <= m.hour < 24 && 0 <= m.minute < 60 && 0 <= m.second < 60
            &&& days_of(m.year, m.month, m.day) == secs / 86400
        }),
{
    law_seconds_of_moment(secs);
    law_days_of_civil(secs / 86400);
}

} // verus!
