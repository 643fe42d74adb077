//! Instants in UTC, their boundaries and their text.

use std::time::{Duration, SystemTime, SystemTimeError};
use vstd::prelude::*;

use crate::clock::civil::{
    civil_from_unix, civil_of_unix, date_of_day, is_leap_year, law_civil_of_a_date,
    law_every_day_has_a_date, lemma_counted_days, lemma_shift,
};
use crate::clock::decimal::{
    law_digit_count, law_four_digits, law_two_digits, padded, push_padded,
};
use crate::clock::system::{duration_of_nanos, nanos_of_duration, unix_epoch};

verus! {

/// Nanoseconds in a second.
pub const NANOS_PER_SEC: u128 = 1_000_000_000;

/// An instant in UTC.
#[derive(Clone, Copy)]
pub struct UtcClock {
    /// Nanoseconds since the Unix epoch.
    pub nanos: u128,
}

impl UtcClock {
    /// The whole seconds since the Unix epoch. Of a number that an `i64` cannot hold its low
    /// 64 bits are kept.
    pub open spec fn secs(self) -> int {
        (self.nanos as int / 1_000_000_000) as i64 as int
    }

    /// The minutes since the Unix epoch.
    pub open spec fn epoch_minute(self) -> int {
        self.secs() / 60
    }

    /// Whether the seconds since the Unix epoch fit in an `i64`.
    pub open spec fn in_range(self) -> bool {
        self.nanos < 0x8000_0000_0000_0000 * 1_000_000_000
    }

    /// The start of the second after this instant, in nanoseconds since the Unix epoch.
    pub open spec fn next_second_nanos(self) -> int {
        (self.nanos as int / 1_000_000_000 + 1) * 1_000_000_000
    }

    /// The start of the minute after this instant, in nanoseconds since the Unix epoch.
    pub open spec fn next_minute_nanos(self) -> int {
        (self.epoch_minute() + 1) * 60 * 1_000_000_000
    }

    /// The nanoseconds from `earlier` to this instant: none where this one is the earlier,
    /// and at most what a `u64` holds.
    pub open spec fn nanos_since(self, earlier: UtcClock) -> u64 {
        let diff = self.nanos - earlier.nanos;
        if diff <= 0 {
            0
        } else if diff > u64::MAX {
            u64::MAX
        } else {
            diff as u64
        }
    }

    /// `YYYY-MM-DD HH:MM:`, the instant's text up to the second.
    pub open spec fn minute_text(self) -> Seq<char> {
        let (y, m, d, h, min, _) = civil_of_unix(self.secs());
        padded(y as int, 4) + seq!['-'] + padded(m as int, 2) + seq!['-'] + padded(d as int, 2)
            + seq![' '] + padded(h as int, 2) + seq![':'] + padded(min as int, 2) + seq![':']
    }

    /// `SS`, the instant's second within its minute.
    pub open spec fn second_text(self) -> Seq<char> {
        padded(self.secs() % 60, 2)
    }

    /// `YYYY-MM-DD HH:MM:SS`, the instant's text.
    pub open spec fn full_text(self) -> Seq<char> {
        let (y, m, d, h, min, s) = civil_of_unix(self.secs());
        padded(y as int, 4) + seq!['-'] + padded(m as int, 2) + seq!['-'] + padded(d as int, 2)
            + seq![' '] + padded(h as int, 2) + seq![':'] + padded(min as int, 2) + seq![':']
            + padded(s as int, 2)
    }

    /// The present instant by the system clock, or the epoch itself where that clock is set
    /// to a time before it.
    pub fn now() -> (now: UtcClock)
        ensures
            now.nanos < 0x1_0000_0000_0000_0000 * 1_000_000_000,
    {
        let time = SystemTime::now();
        Self::since_epoch(time.duration_since(unix_epoch()))
    }

    /// The instant that lies a span of time after the epoch, or the epoch itself where there is
    /// no such span.
    pub fn since_epoch(span: Result<Duration, SystemTimeError>) -> (clock: UtcClock)
        ensures
            clock.nanos < 0x1_0000_0000_0000_0000 * 1_000_000_000,
            span matches Ok(since) ==> clock.nanos == nanos_of_duration(since),
            span is Err ==> clock.nanos == 0,
            forall|n: u64|
                span == Ok::<Duration, SystemTimeError>(#[trigger] duration_of_nanos(n))
                    ==> clock.nanos == n,
    {
        match span {
            Ok(span) => Self { nanos: span.as_nanos() },
            Err(_) => Self { nanos: 0 },
        }
    }

    /// The whole seconds since the Unix epoch.
    pub fn unix_secs(&self) -> (secs: i64)
        ensures
            secs == self.secs(),
            self.in_range() ==> secs == self.nanos as int / 1_000_000_000,
            secs == (self.nanos as int / 1_000_000_000) as i64,
    {
        (self.nanos / NANOS_PER_SEC) as i64
    }

    /// The minute of the hour.
    pub fn minute(&self) -> (minute: u32)
        ensures
            minute == self.epoch_minute() % 60,
            minute == ((self.nanos as int / 1_000_000_000) as i64) as int / 60 % 60,
    {
        let secs: i64 = self.unix_secs();
        let tod: u32 = match secs.checked_rem_euclid(86400) {
            Some(tod) => tod as u32,
            None => 0,
        };
        proof {
            lemma_minute_of_hour(secs as int);
        }
        (tod % 3600) / 60
    }

    /// The minutes since the Unix epoch.
    pub fn minute_number(&self) -> (minute: i64)
        ensures
            minute == self.epoch_minute(),
            minute == ((self.nanos as int / 1_000_000_000) as i64) as int / 60,
    {
        match self.unix_secs().checked_div_euclid(60) {
            Some(minute) => minute,
            None => 0,
        }
    }

    /// The start of the next second.
    pub fn next_second_boundary(&self) -> (next: Self)
        requires
            self.next_second_nanos() <= u128::MAX,
        ensures
            next.nanos == self.next_second_nanos(),
            next.nanos == (self.nanos as int / 1_000_000_000 + 1) * 1_000_000_000,
    {
        let sec: u128 = self.nanos / NANOS_PER_SEC;
        Self { nanos: (sec + 1) * NANOS_PER_SEC }
    }

    /// The start of the next minute.
    pub fn next_minute_boundary(&self) -> (next: Self)
        requires
            self.secs() >= 0,
        ensures
            next.nanos == self.next_minute_nanos(),
            self.nanos < 0x8000_0000_0000_0000 * 1_000_000_000 ==> next.nanos == (self.nanos as int
                / 60_000_000_000 + 1) * 60_000_000_000,
    {
        let sec: i64 = self.unix_secs();
        let minute_start: i64 = match sec.checked_rem_euclid(60) {
            Some(rest) => sec - rest,
            None => sec,
        };
        proof {
            if self.in_range() {
                lemma_epoch_minute(*self);
            }
        }
        Self { nanos: (minute_start as u128 + 60) * NANOS_PER_SEC }
    }

    /// The nanoseconds from `earlier` to this instant: none where this one is the earlier,
    /// and at most what a `u64` holds.
    pub fn saturating_nanos_since(&self, earlier: Self) -> (nanos: u64)
        ensures
            nanos == self.nanos_since(earlier),
            self.nanos <= earlier.nanos ==> nanos == 0,
            0 <= self.nanos - earlier.nanos <= u64::MAX ==> nanos == self.nanos - earlier.nanos,
            self.nanos - earlier.nanos > u64::MAX ==> nanos == u64::MAX,
    {
        let diff: u128 = self.nanos.saturating_sub(earlier.nanos);
        if diff > u64::MAX as u128 {
            u64::MAX
        } else {
            diff as u64
        }
    }

    /// The time from `earlier` to this instant: none where this one is the earlier, and at
    /// most a `u64` of nanoseconds.
    pub fn saturating_duration_since(&self, earlier: Self) -> (duration: Duration)
        ensures
            duration == duration_of_nanos(self.nanos_since(earlier)),
    {
        Duration::from_nanos(self.saturating_nanos_since(earlier))
    }

    /// The instant as `YYYY-MM-DD HH:MM:SS`.
    pub fn format_full(&self) -> (text: String)
        ensures
            text@ == self.full_text(),
    {
        let (y, m, d, h, min, s) = civil_from_unix(self.unix_secs());
        let mut text = String::new();
        push_padded(&mut text, y, 4);
        text.push('-');
        push_padded(&mut text, m as i32, 2);
        text.push('-');
        push_padded(&mut text, d as i32, 2);
        text.push(' ');
        push_padded(&mut text, h as i32, 2);
        text.push(':');
        push_padded(&mut text, min as i32, 2);
        text.push(':');
        push_padded(&mut text, s as i32, 2);
        assert(text@ == self.full_text());
        text
    }

    /// The instant as `YYYY-MM-DD HH:MM:`, everything but the second.
    pub fn format_minute_prefix(&self) -> (text: String)
        ensures
            text@ == self.minute_text(),
    {
        let (y, m, d, h, min, _) = civil_from_unix(self.unix_secs());
        let mut text = String::new();
        push_padded(&mut text, y, 4);
        text.push('-');
        push_padded(&mut text, m as i32, 2);
        text.push('-');
        push_padded(&mut text, d as i32, 2);
        text.push(' ');
        push_padded(&mut text, h as i32, 2);
        text.push(':');
        push_padded(&mut text, min as i32, 2);
        text.push(':');
        assert(text@ == self.minute_text());
        text
    }

    /// The second of the minute as `SS`.
    pub fn format_second(&self) -> (text: String)
        ensures
            text@ == self.second_text(),
    {
        let secs: i64 = self.unix_secs();
        let (_, _, _, _, _, s) = civil_from_unix(secs);
        proof {
            lemma_minute_of_hour(secs as int);
        }
        let mut text = String::new();
        push_padded(&mut text, s as i32, 2);
        assert(text@ == self.second_text());
        text
    }
}

/// The full text is the text up to the second, followed by the second.
pub proof fn law_full_text_is_prefix_and_second(clock: UtcClock)
    ensures
        clock.full_text() == clock.minute_text() + clock.second_text(),
{
    lemma_minute_of_hour(clock.secs());
}

/// Within one minute the text up to the second stays the same, so that the prefix of one
/// instant followed by the second of another is the full text of the other.
pub proof fn law_prefix_holds_for_the_minute(base: UtcClock, clock: UtcClock)
    requires
        base.epoch_minute() == clock.epoch_minute(),
    ensures
        base.minute_text() == clock.minute_text(),
        base.minute_text() + clock.second_text() == clock.full_text(),
{
    lemma_civil_of_minute(base.secs());
    lemma_civil_of_minute(clock.secs());
    law_full_text_is_prefix_and_second(clock);
}

/// The date, the hour and the minute follow from the number of the minute.
proof fn lemma_civil_of_minute(secs: int)
    ensures
        secs / 86_400 == secs / 60 / 1440,
        secs % 86_400 / 3600 == secs / 60 % 1440 / 60,
        secs % 86_400 / 60 % 60 == secs / 60 % 60,
{
    lemma_minute_of_hour(secs);
    let day = secs / 86_400;
    let tod = secs % 86_400;
    lemma_shift(tod, day * 1440, 60);
    lemma_shift(tod / 60, day, 1440);
    assert(tod / 3600 == tod / 60 / 60);
}

/// The next second starts after this instant and at most a second later, at a whole second,
/// and it is the first to do so.
pub proof fn law_next_second_is_the_first(clock: UtcClock, whole: int)
    requires
        whole % 1_000_000_000 == 0,
        whole > clock.nanos,
    ensures
        clock.next_second_nanos() % 1_000_000_000 == 0,
        clock.nanos < clock.next_second_nanos() <= clock.nanos + 1_000_000_000,
        clock.next_second_nanos() <= whole,
{
}

/// The next minute starts after this instant and at most a minute later, at a whole minute,
/// and it is the first to do so.
pub proof fn law_next_minute_is_the_first(clock: UtcClock, whole: int)
    requires
        clock.in_range(),
        whole % 60_000_000_000 == 0,
        whole > clock.nanos,
    ensures
        clock.next_minute_nanos() % 60_000_000_000 == 0,
        clock.nanos < clock.next_minute_nanos() <= clock.nanos + 60_000_000_000,
        clock.next_minute_nanos() <= whole,
{
    lemma_epoch_minute(clock);
}

/// From an instant until the start of the next minute the minute stays the same, and there
/// it moves on to the next.
pub proof fn law_minute_turns_at_the_boundary(clock: UtcClock, later: UtcClock)
    requires
        clock.in_range(),
        later.in_range(),
        clock.nanos <= later.nanos,
    ensures
        later.nanos < clock.next_minute_nanos() ==> later.epoch_minute() == clock.epoch_minute(),
        later.nanos == clock.next_minute_nanos() ==> later.epoch_minute() == clock.epoch_minute()
            + 1,
        later.nanos > clock.next_minute_nanos() ==> later.epoch_minute() > clock.epoch_minute(),
{
    lemma_epoch_minute(clock);
    lemma_epoch_minute(later);
}

proof fn lemma_epoch_minute(clock: UtcClock)
    requires
        clock.in_range(),
    ensures
        clock.epoch_minute() == clock.nanos as int / 60_000_000_000,
{
    let secs = clock.nanos as int / 1_000_000_000;
    assert(clock.secs() == secs);
    assert(secs / 60 == clock.nanos as int / 60_000_000_000);
}

/// The wait for the next second is never empty and never longer than a second; the wait for
/// the next minute is never empty and never longer than a minute.
pub proof fn law_waits_are_short(clock: UtcClock, second: UtcClock, minute: UtcClock)
    requires
        clock.in_range(),
        second.nanos == clock.next_second_nanos(),
        minute.nanos == clock.next_minute_nanos(),
    ensures
        0 < second.nanos_since(clock) <= 1_000_000_000,
        0 < minute.nanos_since(clock) <= 60_000_000_000,
{
    lemma_epoch_minute(clock);
}

/// From year 0 to year 9999 the text has the shape `YYYY-MM-DD HH:MM:SS`.
pub proof fn law_full_text_shape(clock: UtcClock)
    requires
        0 <= civil_of_unix(clock.secs()).0 <= 9999,
    ensures
        clock.full_text().len() == 19,
        clock.full_text()[4] == '-',
        clock.full_text()[7] == '-',
        clock.full_text()[10] == ' ',
        clock.full_text()[13] == ':',
        clock.full_text()[16] == ':',
{
    let secs = clock.secs();
    law_every_day_has_a_date(secs / 86_400);
    let (y, m, d, h, min, s) = civil_of_unix(secs);
    law_digit_count(y as nat);
    law_digit_count(m as nat);
    law_digit_count(d as nat);
    law_digit_count(h as nat);
    law_digit_count(min as nat);
    law_digit_count(s as nat);
}

proof fn lemma_minute_of_hour(secs: int)
    ensures
        secs % 86_400 % 3600 / 60 == secs / 60 % 60,
        secs % 86_400 / 60 % 60 == secs / 60 % 60,
        secs % 86_400 % 60 == secs % 60,
{
    let day = secs / 86_400;
    let tod = secs % 86_400;
    lemma_shift(tod, day * 1440, 60);
    lemma_shift(tod / 60, day * 24, 60);
    let hour = tod / 3600;
    let rest = tod % 3600;
    lemma_shift(rest, hour * 60, 60);
    lemma_shift(rest / 60, hour, 60);
}

/// The seconds since the epoch are the nanoseconds without their fraction of a second, as an
/// `i64` holds them, and the minutes are those without their fraction of a minute.
pub proof fn law_seconds_and_minutes_are_whole(clock: UtcClock)
    ensures
        clock.secs() == (clock.nanos as int / 1_000_000_000) as i64,
        clock.nanos < 0x8000_0000_0000_0000 * 1_000_000_000 ==> clock.secs() == clock.nanos as int
            / 1_000_000_000,
        clock.epoch_minute() == ((clock.nanos as int / 1_000_000_000) as i64) as int / 60,
        clock.nanos < 0x8000_0000_0000_0000 * 1_000_000_000 ==> clock.epoch_minute()
            == clock.nanos as int / 60_000_000_000,
{
    if clock.in_range() {
        lemma_epoch_minute(clock);
    }
}

/// A span added to its start gives its end, as long as the end is not the earlier and the span
/// fits in a `u64` of nanoseconds. Otherwise the span is the nearest that there is.
pub proof fn law_spans_lead_to_their_end(clock: UtcClock, earlier: UtcClock)
    ensures
        0 <= clock.nanos - earlier.nanos <= u64::MAX ==> earlier.nanos + clock.nanos_since(earlier)
            == clock.nanos,
        clock.nanos < earlier.nanos ==> clock.nanos_since(earlier) == 0,
        clock.nanos > earlier.nanos + u64::MAX ==> clock.nanos_since(earlier) == u64::MAX,
{
}

/// The text of an instant shows the date and the time of the instant: the year first, then the
/// month, the day, the hour, the minute and the second, with two digits each.
pub proof fn law_full_text_shows_the_instant(
    clock: UtcClock,
    year: int,
    month: int,
    day: int,
    tod: int,
    leap: bool,
)
    requires
        1 <= month <= 12,
        leap == (year % 4 == 0 && (year % 100 != 0 || year % 400 == 0)),
        1 <= day <= (if month == 2 {
            if leap {
                29int
            } else {
                28int
            }
        } else if month == 4 || month == 6 || month == 9 || month == 11 {
            30int
        } else {
            31int
        }),
        0 <= tod < 86_400,
        ((clock.nanos as int / 1_000_000_000) as i64) == 86_400 * (365 * (year - 1) + (year - 1) / 4 - (year - 1) / 100 + (year - 1) / 400
            + (367 * month - 362) / 12 + (if month <= 2 {
            0int
        } else if leap {
            -1int
        } else {
            -2int
        }) + day - 719_163) + tod,
    ensures
        ({
            let text = clock.full_text();
            let shown = padded(year as i32 as int, 4);
            let at = shown.len() as int;
            &&& text.len() == at + 15
            &&& text.take(at) == shown
            &&& text[at] == '-'
            &&& text[at + 1] as int == 48 + month / 10
            &&& text[at + 2] as int == 48 + month % 10
            &&& text[at + 3] == '-'
            &&& text[at + 4] as int == 48 + day / 10
            &&& text[at + 5] as int == 48 + day % 10
            &&& text[at + 6] == ' '
            &&& text[at + 7] as int == 48 + tod / 3600 / 10
            &&& text[at + 8] as int == 48 + tod / 3600 % 10
            &&& text[at + 9] == ':'
            &&& text[at + 10] as int == 48 + tod % 3600 / 60 / 10
            &&& text[at + 11] as int == 48 + tod % 3600 / 60 % 10
            &&& text[at + 12] == ':'
            &&& text[at + 13] as int == 48 + tod % 60 / 10
            &&& text[at + 14] as int == 48 + tod % 60 % 10
        }),
{
    law_civil_of_a_date(clock.secs(), year, month, day, tod, leap);
    law_two_digits(month);
    law_two_digits(day);
    law_two_digits(tod / 3600);
    law_two_digits(tod % 3600 / 60);
    law_two_digits(tod % 60);
    let shown = padded(year as i32 as int, 4);
    assert(clock.full_text().take(shown.len() as int) == shown);
}

/// From year 0 to year 9999 the text starts with the four digits of the year.
pub proof fn law_full_text_starts_with_the_year(
    clock: UtcClock,
    year: int,
    month: int,
    day: int,
    tod: int,
    leap: bool,
)
    requires
        0 <= year <= 9999,
        1 <= month <= 12,
        leap == (year % 4 == 0 && (year % 100 != 0 || year % 400 == 0)),
        1 <= day <= (if month == 2 {
            if leap {
                29int
            } else {
                28int
            }
        } else if month == 4 || month == 6 || month == 9 || month == 11 {
            30int
        } else {
            31int
        }),
        0 <= tod < 86_400,
        ((clock.nanos as int / 1_000_000_000) as i64) == 86_400 * (365 * (year - 1) + (year - 1) / 4 - (year - 1) / 100 + (year - 1) / 400
            + (367 * month - 362) / 12 + (if month <= 2 {
            0int
        } else if leap {
            -1int
        } else {
            -2int
        }) + day - 719_163) + tod,
    ensures
        clock.full_text().len() == 19,
        clock.full_text()[0] as int == 48 + year / 1000,
        clock.full_text()[1] as int == 48 + year / 100 % 10,
        clock.full_text()[2] as int == 48 + year / 10 % 10,
        clock.full_text()[3] as int == 48 + year % 10,
{
    law_full_text_shows_the_instant(clock, year, month, day, tod, leap);
    law_four_digits(year);
    let shown = padded(year as i32 as int, 4);
    assert(clock.full_text().take(4) == shown);
    assert(clock.full_text().take(4)[0] == shown[0]);
    assert(clock.full_text().take(4)[1] == shown[1]);
    assert(clock.full_text().take(4)[2] == shown[2]);
    assert(clock.full_text().take(4)[3] == shown[3]);
}

/// Every instant has a date and a time of day, which give the instant back.
pub proof fn law_every_instant_has_a_date(clock: UtcClock) -> (date: (int, int, int, int, bool))
    ensures
        ({
            let (year, month, day, tod, leap) = date;
            &&& 1 <= month <= 12
            &&& leap == (year % 4 == 0 && (year % 100 != 0 || year % 400 == 0))
            &&& 1 <= day <= (if month == 2 {
                if leap {
                    29int
                } else {
                    28int
                }
            } else if month == 4 || month == 6 || month == 9 || month == 11 {
                30int
            } else {
                31int
            })
            &&& 0 <= tod < 86_400
            &&& ((clock.nanos as int / 1_000_000_000) as i64) == 86_400 * (365 * (year - 1) + (
            year - 1) / 4 - (year - 1) / 100 + (year - 1) / 400 + (367 * month - 362) / 12 + (
            if month <= 2 {
                0int
            } else if leap {
                -1int
            } else {
                -2int
            }) + day - 719_163) + tod
        }),
{
    let secs = clock.secs();
    law_every_day_has_a_date(secs / 86_400);
    let found = date_of_day(secs / 86_400);
    let leap = is_leap_year(found.year);
    lemma_counted_days(found.year, found.month, leap);
    (found.year, found.month, found.day, secs % 86_400, leap)
}

/// The second is shown with two digits, and it is what the full text ends with.
pub proof fn law_second_text_shows_the_second(clock: UtcClock)
    ensures
        clock.second_text().len() == 2,
        clock.second_text()[0] as int == 48 + ((clock.nanos as int / 1_000_000_000) as i64) as int
            % 60 / 10,
        clock.second_text()[1] as int == 48 + ((clock.nanos as int / 1_000_000_000) as i64) as int
            % 60 % 10,
        clock.full_text() == clock.minute_text() + clock.second_text(),
{
    law_two_digits(clock.secs() % 60);
    law_full_text_is_prefix_and_second(clock);
}

} // verus!
