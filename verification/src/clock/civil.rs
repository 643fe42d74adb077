//! The proleptic Gregorian calendar in UTC.

use vstd::prelude::*;

verus! {

/// Seconds in a day.
pub const SECS_PER_DAY: i64 = 86_400;

/// A date of the proleptic Gregorian calendar. Year 0 is the year before year 1.
pub struct CivilDate {
    pub year: int,
    pub month: int,
    pub day: int,
}

/// Whether `year` has a 29th of February.
pub open spec fn is_leap_year(year: int) -> bool {
    year % 4 == 0 && (year % 100 != 0 || year % 400 == 0)
}

/// The number of days in `year`.
pub open spec fn year_length(year: int) -> int {
    if is_leap_year(year) {
        366
    } else {
        365
    }
}

/// The number of days in month `month` of `year`.
pub open spec fn month_length(year: int, month: int) -> int {
    if month == 2 {
        if is_leap_year(year) {
            29
        } else {
            28
        }
    } else if month == 4 || month == 6 || month == 9 || month == 11 {
        30
    } else {
        31
    }
}

/// The number of days from 0000-01-01 to the first of January of `year`, negative for
/// the years before year 0. The leap years among `0..year` are counted by rounding up.
pub open spec fn days_before_year(year: int) -> int {
    365 * year + (year + 3) / 4 - (year + 99) / 100 + (year + 399) / 400
}

/// The number of days of `year` that lie before month `month`.
pub open spec fn days_before_month(year: int, month: int) -> int
    decreases month,
{
    if month <= 1 {
        0
    } else {
        days_before_month(year, month - 1) + month_length(year, month - 1)
    }
}

impl CivilDate {
    /// Whether the calendar has this date.
    pub open spec fn valid(self) -> bool {
        &&& 1 <= self.month <= 12
        &&& 1 <= self.day <= month_length(self.year, self.month)
    }

    /// The number of days from 1970-01-01 to this date.
    pub open spec fn day_number(self) -> int {
        days_before_year(self.year) - days_before_year(1970) + days_before_month(
            self.year,
            self.month,
        ) + self.day - 1
    }

    /// Whether this date comes before `other`.
    pub open spec fn before(self, other: CivilDate) -> bool {
        ||| self.year < other.year
        ||| self.year == other.year && self.month < other.month
        ||| self.year == other.year && self.month == other.month && self.day < other.day
    }
}

/// The date `days` days after 1970-01-01.
pub open spec fn date_of_day(days: int) -> CivilDate {
    choose|date: CivilDate| #[trigger] date.valid() && date.day_number() == days
}

/// Every year starts where the year before it ends.
pub proof fn law_years_follow_each_other(year: int)
    ensures
        days_before_year(0) == 0,
        days_before_year(year + 1) == days_before_year(year) + year_length(year),
{
}

/// Every year is as long as its twelve months.
pub proof fn law_months_fill_the_year(year: int)
    ensures
        days_before_month(year, 13) == year_length(year),
{
    reveal_with_fuel(days_before_month, 13);
}

/// Days are numbered in the order of their dates.
pub proof fn law_day_numbers_are_ordered(a: CivilDate, b: CivilDate)
    requires
        a.valid(),
        b.valid(),
    ensures
        a.before(b) <==> a.day_number() < b.day_number(),
{
    lemma_before_implies_less(a, b);
    lemma_before_implies_less(b, a);
}

/// Where each month of a year starts.
proof fn lemma_month_starts(year: int)
    ensures
        ({
            let leap = if is_leap_year(year) {
                1int
            } else {
                0int
            };
            &&& days_before_month(year, 1) == 0
            &&& days_before_month(year, 2) == 31
            &&& days_before_month(year, 3) == 59 + leap
            &&& days_before_month(year, 4) == 90 + leap
            &&& days_before_month(year, 5) == 120 + leap
            &&& days_before_month(year, 6) == 151 + leap
            &&& days_before_month(year, 7) == 181 + leap
            &&& days_before_month(year, 8) == 212 + leap
            &&& days_before_month(year, 9) == 243 + leap
            &&& days_before_month(year, 10) == 273 + leap
            &&& days_before_month(year, 11) == 304 + leap
            &&& days_before_month(year, 12) == 334 + leap
            &&& days_before_month(year, 13) == 365 + leap
        }),
{
    reveal_with_fuel(days_before_month, 13);
}

/// A month ends before any later month of its year starts.
proof fn lemma_months_are_ordered(year: int, a: int, b: int)
    requires
        1 <= a < b <= 13,
    ensures
        days_before_month(year, a) + month_length(year, a) <= days_before_month(year, b),
        0 <= days_before_month(year, a),
    decreases b,
{
    lemma_month_starts(year);
    if a + 1 < b {
        lemma_months_are_ordered(year, a, b - 1);
    }
}

proof fn lemma_years_are_ordered(a: int, b: int)
    requires
        a < b,
    ensures
        days_before_year(a) + year_length(a) <= days_before_year(b),
{
    law_years_follow_each_other(a);
    let c = a + 1;
    assert((c + 3) / 4 <= (b + 3) / 4);
    assert((c + 399) / 400 <= (b + 399) / 400);
    assert((b + 99) / 100 - (c + 99) / 100 <= b - c);
}

proof fn lemma_before_implies_less(a: CivilDate, b: CivilDate)
    requires
        a.valid(),
        b.valid(),
    ensures
        a.before(b) ==> a.day_number() < b.day_number(),
{
    law_months_fill_the_year(a.year);
    lemma_months_are_ordered(a.year, a.month, 13);
    lemma_months_are_ordered(b.year, b.month, 13);
    if a.year < b.year {
        lemma_years_are_ordered(a.year, b.year);
    } else if a.year == b.year && a.month < b.month {
        lemma_months_are_ordered(a.year, a.month, b.month);
    }
}

/// No two dates have the same number: the date of a day is the one date with its number.
pub proof fn law_date_of_day_is_unique(date: CivilDate)
    requires
        date.valid(),
    ensures
        date_of_day(date.day_number()) == date,
{
    let found = date_of_day(date.day_number());
    assert(found.valid() && found.day_number() == date.day_number());
    law_day_numbers_are_ordered(found, date);
    law_day_numbers_are_ordered(date, found);
}

/// Every day has a date.
pub proof fn law_every_day_has_a_date(days: int)
    ensures
        date_of_day(days).valid(),
        date_of_day(days).day_number() == days,
{
    let date = march_date(days);
    lemma_march_date(days);
    assert(date.valid() && date.day_number() == days);
}

/// The time of day at `unix_secs` seconds since 1970-01-01 00:00:00 UTC: hour, minute and
/// second.
pub open spec fn time_of_day(unix_secs: int) -> (int, int, int) {
    let tod = unix_secs % 86_400;
    (tod / 3600, tod / 60 % 60, tod % 60)
}

/// The date and the time of day at `unix_secs` seconds since 1970-01-01 00:00:00 UTC: year,
/// month, day, hour, minute and second. Of a year that an `i32` cannot hold its low 32 bits
/// are kept.
pub open spec fn civil_of_unix(unix_secs: int) -> (i32, u32, u32, u32, u32, u32) {
    let date = date_of_day(unix_secs / 86_400);
    let (hour, min, sec) = time_of_day(unix_secs);
    (
        date.year as i32,
        date.month as u32,
        date.day as u32,
        hour as u32,
        min as u32,
        sec as u32,
    )
}

/// The date and the time of day at `unix_secs` seconds since 1970-01-01 00:00:00 UTC: year,
/// month, day, hour, minute and second.
pub fn civil_from_unix(unix_secs: i64) -> (civil: (i32, u32, u32, u32, u32, u32))
    ensures
        civil == civil_of_unix(unix_secs as int),
        forall|date: CivilDate| #[trigger]
            date.valid() && date.day_number() == unix_secs as int / 86_400 ==> {
                &&& civil.0 == date.year as i32
                &&& civil.1 == date.month
                &&& civil.2 == date.day
            },
        1 <= civil.1 <= 12,
        1 <= civil.2 <= 31,
        civil.3 * 3600 + civil.4 * 60 + civil.5 == unix_secs as int % 86_400,
        civil.3 < 24,
        civil.4 < 60,
        civil.5 < 60,
{
    let days: i64 = match unix_secs.checked_div_euclid(SECS_PER_DAY) {
        Some(days) => days,
        None => 0,
    };
    let tod: u32 = match unix_secs.checked_rem_euclid(SECS_PER_DAY) {
        Some(tod) => tod as u32,
        None => 0,
    };
    let hour: u32 = tod / 3600;
    let min: u32 = (tod % 3600) / 60;
    let sec: u32 = tod % 60;

    let (y, m, d) = date_from_days(days);
    proof {
        lemma_date_of_day(days as int);
        law_every_day_has_a_date(days as int);
        lemma_time_of_day(tod as int);
    }
    (y as i32, m, d, hour, min, sec)
}

/// The date `days` days after 1970-01-01, by Howard Hinnant's algorithm: year, month and day.
fn date_from_days(days: i64) -> (date: (i64, u32, u32))
    requires
        i64::MIN / 86_400 - 1 <= days <= i64::MAX / 86_400,
    ensures
        (CivilDate { year: date.0 as int, month: date.1 as int, day: date.2 as int })
            == date_of_day(days as int),
{
    proof {
        lemma_march_date(days as int);
        law_date_of_day_is_unique(march_date(days as int));
    }
    let z: i64 = days + 719_468;
    let era: i64 = (if z >= 0 {
        z
    } else {
        z - 146_096
    }) / 146_097;
    assert(era == z as int / 146_097);
    let doe: u64 = (z - era * 146_097) as u64;
    assert(doe == z as int % 146_097);
    let yoe: u64 = (doe - doe / 1460 + doe / 36524 - doe / 146096) / 365;
    proof {
        lemma_year_of_cycle(doe as int);
    }
    let y: i64 = yoe as i64 + era * 400;
    let doy: u64 = doe - (365 * yoe + yoe / 4 - yoe / 100);
    let mp: u64 = (5 * doy + 2) / 153;
    let d: u64 = doy - (153 * mp + 2) / 5 + 1;
    let m: u64 = if mp < 10 {
        mp + 3
    } else {
        mp - 9
    };
    let y: i64 = if m <= 2 {
        y + 1
    } else {
        y
    };
    (y, m as u32, d as u32)
}

proof fn lemma_date_of_day(days: int)
    ensures
        forall|date: CivilDate| #[trigger]
            date.valid() && date.day_number() == days ==> date == date_of_day(days),
{
    assert forall|date: CivilDate| #[trigger]
        date.valid() && date.day_number() == days implies date == date_of_day(days) by {
        law_date_of_day_is_unique(date);
    }
}

proof fn lemma_time_of_day(tod: int)
    requires
        0 <= tod < 86_400,
    ensures
        tod / 60 % 60 == (tod % 3600) / 60,
        tod / 3600 * 3600 + (tod % 3600) / 60 * 60 + tod % 60 == tod,
{
}

/// The date of a day, counted in years that start on the first of March, so that a leap
/// day is the last day of its year.
spec fn march_date(days: int) -> CivilDate {
    let z = days + 719_468;
    let doe = z % 146_097;
    let yoe = (doe - doe / 1460 + doe / 36524 - doe / 146096) / 365;
    let doy = doe - (365 * yoe + yoe / 4 - yoe / 100);
    let mp = (5 * doy + 2) / 153;
    let month = if mp < 10 {
        mp + 3
    } else {
        mp - 9
    };
    let year = yoe + (z / 146_097) * 400;
    CivilDate {
        year: if month <= 2 {
            year + 1
        } else {
            year
        },
        month,
        day: doy - (153 * mp + 2) / 5 + 1,
    }
}

/// The year of a century in which a day of the century lies; `c` counts the centuries
/// before it.
#[verifier::spinoff_prover]
proof fn lemma_year_of_century(doe: int, c: int)
    requires
        0 <= c < 4,
        36_524 * c <= doe < 36_524 * (c + 1),
    ensures
        ({
            let yoe = (doe - doe / 1460 + c) / 365;
            &&& 100 * c <= yoe < 100 * (c + 1)
            &&& 365 * yoe + yoe / 4 - c <= doe
            &&& doe < 365 * (yoe + 1) + (yoe + 1) / 4 - (if yoe == 100 * c + 99 {
                c + 1
            } else {
                c
            })
        }),
{
    let k = doe / 1460;
    let yoe = (doe - k + c) / 365;
    let q = yoe / 4;
    let w = yoe % 4;
    assert(yoe == 4 * q + w);
    assert(1460 * k <= doe < 1460 * (k + 1));
    assert(365 * yoe <= doe - k + c < 365 * (yoe + 1));
    assert(k <= q + 1);
    assert(q <= k + 1);
}

/// The year of a cycle of 400 years in which a day of the cycle lies.
#[verifier::spinoff_prover]
proof fn lemma_year_of_cycle(doe: int)
    requires
        0 <= doe < 146_097,
    ensures
        ({
            let yoe = (doe - doe / 1460 + doe / 36524 - doe / 146096) / 365;
            &&& 0 <= yoe < 400
            &&& 365 * yoe + yoe / 4 - yoe / 100 <= doe
            &&& doe < 365 * (yoe + 1) + (yoe + 1) / 4 - (yoe + 1) / 100 + (yoe + 1) / 400
        }),
{
    if doe < 146_096 {
        let c = doe / 36524;
        assert(0 <= c < 4);
        lemma_year_of_century(doe, c);
    }
}

/// A year that starts on the first of March, its months and its days, against the
/// calendar's own.
proof fn lemma_march_year(year: int, doy: int)
    requires
        0 <= doy < 365 + (if is_leap_year(year + 1) {
            1int
        } else {
            0int
        }),
    ensures
        ({
            let mp = (5 * doy + 2) / 153;
            let month = if mp < 10 {
                mp + 3
            } else {
                mp - 9
            };
            let date = CivilDate {
                year: if month <= 2 {
                    year + 1
                } else {
                    year
                },
                month,
                day: doy - (153 * mp + 2) / 5 + 1,
            };
            &&& date.valid()
            &&& date.day_number() == days_before_year(year) + 59 + (if is_leap_year(year) {
                1int
            } else {
                0int
            }) + doy - days_before_year(1970)
        }),
{
    let mp = (5 * doy + 2) / 153;
    assert(0 <= mp < 12);
    lemma_month_starts(year);
    lemma_month_starts(year + 1);
    law_years_follow_each_other(year);
    if mp < 10 {
        let month = mp + 3;
        assert(3 <= month <= 12);
    } else {
        let month = mp - 9;
        assert(month == 1 || month == 2);
    }
}

/// Adding `k` times `d` adds `k` to the quotient by `d`.
pub(crate) proof fn lemma_shift(x: int, k: int, d: int)
    requires
        d > 0,
    ensures
        (x + k * d) / d == x / d + k,
        (x + k * d) % d == x % d,
{
    let q = x / d;
    let r = x % d;
    vstd::arithmetic::div_mod::lemma_fundamental_div_mod(x, d);
    vstd::arithmetic::div_mod::lemma_mod_bound(x, d);
    assert(x + k * d == d * (q + k) + r) by (nonlinear_arith)
        requires
            x == d * q + r,
    ;
    vstd::arithmetic::div_mod::lemma_fundamental_div_mod_converse(x + k * d, d, q + k, r);
}

proof fn lemma_round_up(x: int, d: int)
    requires
        d > 0,
    ensures
        (x + d - 1) / d == x / d + (if x % d == 0 {
            0int
        } else {
            1int
        }),
{
    let q = x / d;
    let r = x % d;
    vstd::arithmetic::div_mod::lemma_fundamental_div_mod(x, d);
    vstd::arithmetic::div_mod::lemma_mod_bound(x, d);
    if r == 0 {
        vstd::arithmetic::div_mod::lemma_fundamental_div_mod_converse(x + d - 1, d, q, d - 1);
    } else {
        assert(x + d - 1 == d * (q + 1) + (r - 1)) by (nonlinear_arith)
            requires
                x == d * q + r,
        ;
        vstd::arithmetic::div_mod::lemma_fundamental_div_mod_converse(x + d - 1, d, q + 1, r - 1);
    }
}

proof fn lemma_centuries(year: int)
    ensures
        year % 100 == 0 ==> year % 4 == 0,
        year % 400 == 0 ==> year % 100 == 0,
{
    if year % 100 == 0 {
        lemma_shift(0, 25 * (year / 100), 4);
    }
    if year % 400 == 0 {
        lemma_shift(0, 4 * (year / 400), 100);
    }
}

/// The number of days from 0000-01-01 to the first of March of `year`.
proof fn lemma_march_start(year: int)
    ensures
        days_before_year(year) + 59 + (if is_leap_year(year) {
            1int
        } else {
            0int
        }) == 60 + 365 * year + year / 4 - year / 100 + year / 400,
{
    lemma_round_up(year, 4);
    lemma_round_up(year, 100);
    lemma_round_up(year, 400);
    lemma_centuries(year);
}

/// A year of a cycle of 400 years against the year that it is.
proof fn lemma_cycle_year(era: int, yoe: int)
    requires
        0 <= yoe < 400,
    ensures
        ({
            let year = yoe + era * 400;
            &&& year / 4 == yoe / 4 + 100 * era
            &&& year / 100 == yoe / 100 + 4 * era
            &&& year / 400 == era
            &&& (yoe + 1) / 4 - yoe / 4 - ((yoe + 1) / 100 - yoe / 100) + (yoe + 1) / 400
                == if is_leap_year(year + 1) {
                1int
            } else {
                0int
            }
        }),
{
    let next = yoe + 1;
    let year = next + era * 400;
    lemma_shift(yoe, 100 * era, 4);
    lemma_shift(yoe, 4 * era, 100);
    lemma_shift(yoe, era, 400);
    lemma_shift(next, 100 * era, 4);
    lemma_shift(next, 4 * era, 100);
    lemma_shift(next, era, 400);
    lemma_round_up(next, 4);
    lemma_round_up(next, 100);
    lemma_round_up(next, 400);
    lemma_shift(yoe, 1, 4);
    lemma_shift(yoe, 1, 100);
    lemma_shift(yoe, 1, 400);
    lemma_centuries(next);
}

proof fn lemma_march_date(days: int)
    ensures
        march_date(days).valid(),
        march_date(days).day_number() == days,
{
    let z = days + 719_468;
    let era = z / 146_097;
    let doe = z % 146_097;
    let yoe = (doe - doe / 1460 + doe / 36524 - doe / 146096) / 365;
    let year = yoe + era * 400;
    let doy = doe - (365 * yoe + yoe / 4 - yoe / 100);
    lemma_year_of_cycle(doe);
    lemma_cycle_year(era, yoe);
    lemma_march_start(year);
    lemma_march_year(year, doy);
}

/// The date of an instant is the one whose day lies as far from 1970-01-01 as the instant does.
/// The day is counted by the years before it, with their leap days, by the months of its year
/// before it, and by the days of its month; the time is what is left.
pub proof fn law_civil_of_a_date(
    unix_secs: int,
    year: int,
    month: int,
    day: int,
    tod: int,
    leap: bool,
)
    requires
        1 <= month <= 12,
        leap == (year % 4 == 0 && (year % 100 != 0 || year % 400 == 0)),
        1 <= day <= (if month == 2 {
            if leap {
                29int
            } else {
                28int
            }
        } else if month == 4 || month == 6 || month == 9 || month == 11 {
            30int
        } else {
            31int
        }),
        0 <= tod < 86_400,
        unix_secs == 86_400 * (365 * (year - 1) + (year - 1) / 4 - (year - 1) / 100 + (year - 1) / 400
            + (367 * month - 362) / 12 + (if month <= 2 {
            0int
        } else if leap {
            -1int
        } else {
            -2int
        }) + day - 719_163) + tod,
    ensures
        civil_of_unix(unix_secs) == (
            year as i32,
            month as u32,
            day as u32,
            (tod / 3600) as u32,
            (tod % 3600 / 60) as u32,
            (tod % 60) as u32,
        ),
{
    let date = CivilDate { year, month, day };
    lemma_counted_days(year, month, leap);
    assert(date.valid());
    let days = date.day_number();
    lemma_day_and_time(days, tod);
    law_date_of_day_is_unique(date);
}

proof fn lemma_day_and_time(days: int, tod: int)
    requires
        0 <= tod < 86_400,
    ensures
        (86_400 * days + tod) / 86_400 == days,
        (86_400 * days + tod) % 86_400 == tod,
        tod / 60 % 60 == tod % 3600 / 60,
{
    let hour = tod / 3600;
    let rest = tod % 3600;
    lemma_shift(rest, hour * 60, 60);
    lemma_shift(rest / 60, hour, 60);
}

/// The days before a month and before a year, counted at once.
pub(crate) proof fn lemma_counted_days(year: int, month: int, leap: bool)
    requires
        1 <= month <= 12,
        leap == is_leap_year(year),
    ensures
        days_before_month(year, month) == (367 * month - 362) / 12 + (if month <= 2 {
            0int
        } else if leap {
            -1int
        } else {
            -2int
        }),
        days_before_year(year) == 365 * (year - 1) + (year - 1) / 4 - (year - 1) / 100 + (year - 1)
            / 400 + 366,
        days_before_year(1970) == 719_528,
{
    lemma_counted_months(year, month, leap);
    lemma_counted_years(year);
}

#[verifier::spinoff_prover]
proof fn lemma_counted_years(year: int)
    ensures
        days_before_year(year) == 365 * (year - 1) + (year - 1) / 4 - (year - 1) / 100 + (year - 1)
            / 400 + 366,
        days_before_year(1970) == 719_528,
{
    let before = year - 1;
    assert((before + 4) / 4 == before / 4 + 1);
    assert((before + 100) / 100 == before / 100 + 1);
    assert((before + 400) / 400 == before / 400 + 1);
}

#[verifier::spinoff_prover]
proof fn lemma_counted_months(year: int, month: int, leap: bool)
    requires
        1 <= month <= 12,
        leap == is_leap_year(year),
    ensures
        days_before_month(year, month) == (367 * month - 362) / 12 + (if month <= 2 {
            0int
        } else if leap {
            -1int
        } else {
            -2int
        }),
{
    lemma_month_starts(year);
    let months = seq![0int, 31, 61, 92, 122, 153, 183, 214, 245, 275, 306, 336];
    assert((367 * month - 362) / 12 == months[month - 1]) by {
        if month <= 6 {
            assert(month == 1 || month == 2 || month == 3 || month == 4 || month == 5 || month
                == 6);
        } else {
            assert(month == 7 || month == 8 || month == 9 || month == 10 || month == 11 || month
                == 12);
        }
    }
}

} // verus!
