//! The proleptic Gregorian calendar as the library needs it: civil dates, the
//! day count from 1970-01-01, ISO weeks, and the conversions that `chrono`
//! performs, each behind a contract stated over these definitions.

use crate::text::{decimal, four_digits, push_decimal, push_four_digits, push_two_digits, two_digits};
use vstd::prelude::*;

verus! {

/// A calendar date: year, month (1 to 12) and day of the month (from 1).
#[derive(Clone, Copy, Debug, PartialEq, Eq, Structural, PartialOrd, Ord)]
pub struct CivilDate {
    pub year: i32,
    pub month: u32,
    pub day: u32,
}

/// The date and the time of day of an instant in UTC, to the second.
#[derive(Clone, Copy, Debug, PartialEq, Eq, Structural)]
pub struct UtcStamp {
    pub date: CivilDate,
    pub hour: u32,
    pub minute: u32,
    pub second: u32,
}

/// What the statistics read of an instant in the local time zone.
#[derive(Clone, Copy, Debug, PartialEq, Eq, Structural)]
pub struct LocalStamp {
    pub date: CivilDate,
    pub hour: u32,
    /// Day of the week, 1 for Monday to 7 for Sunday.
    pub weekday: u32,
    /// The year that the ISO week belongs to.
    pub iso_year: i32,
    /// The ISO week number, 1 to 53.
    pub iso_week: u32,
}

/// The first year that `chrono` can represent.
pub open spec fn min_year() -> int {
    -262143
}

/// The last year that `chrono` can represent.
pub open spec fn max_year() -> int {
    262142
}

/// Milliseconds in a day.
pub open spec fn day_millis() -> int {
    86_400_000
}

/// Whether `year` has 366 days.
pub open spec fn is_leap_year(year: int) -> bool {
    year % 4 == 0 && (year % 100 != 0 || year % 400 == 0)
}

/// The number of days of month `month` in year `year`.
pub open spec fn days_in_month(year: int, month: int) -> int {
    if month == 2 {
        if is_leap_year(year) {
            29
        } else {
            28
        }
    } else if month == 4 || month == 6 || month == 9 || month == 11 {
        30
    } else {
        31
    }
}

/// The number of days of year `year` that lie before its month `month`.
pub open spec fn days_before_month(year: int, month: int) -> int
    decreases month,
{
    if month <= 1 {
        0
    } else {
        days_before_month(year, month - 1) + days_in_month(year, month - 1)
    }
}

/// The number of leap years among the years before `year`, up to a constant.
pub open spec fn leap_years_before(year: int) -> int {
    (year - 1) / 4 - (year - 1) / 100 + (year - 1) / 400
}

/// The number of days from 1970-01-01 to January 1 of `year`.
#[verifier::opaque]
pub open spec fn days_before_year(year: int) -> int {
    365 * (year - 1970) + leap_years_before(year) - leap_years_before(1970)
}

/// The number of days from 1970-01-01 to the given date (negative before it).
pub open spec fn epoch_days(year: int, month: int, day: int) -> int {
    days_before_year(year) + days_before_month(year, month) + day - 1
}

/// Whether year, month and day name a day of the calendar.
pub open spec fn is_civil(year: int, month: int, day: int) -> bool {
    1 <= month <= 12 && 1 <= day <= days_in_month(year, month)
}

/// Day of the week of the day `days` after 1970-01-01, a Thursday:
/// 1 for Monday to 7 for Sunday.
pub open spec fn weekday_of(days: int) -> int {
    (days + 3) % 7 + 1
}

/// The day count of the Monday that starts ISO week 1 of `year`: the Monday
/// of the week that holds January 4.
pub open spec fn week_one_monday(year: int) -> int {
    epoch_days(year, 1, 4) - (weekday_of(epoch_days(year, 1, 4)) - 1)
}

/// The year whose ISO weeks hold the day `days`, which lies in calendar year
/// `year`.
pub open spec fn iso_year_of(year: int, days: int) -> int {
    if days < week_one_monday(year) {
        year - 1
    } else if days >= week_one_monday(year + 1) {
        year + 1
    } else {
        year
    }
}

/// The ISO week number of the day `days`, which lies in calendar year `year`.
pub open spec fn iso_week_of(year: int, days: int) -> int {
    (days - week_one_monday(iso_year_of(year, days))) / 7 + 1
}

impl CivilDate {
    /// The date names a day of the calendar, in a year `chrono` represents.
    pub open spec fn valid(self) -> bool {
        min_year() <= self.year <= max_year() && is_civil(
            self.year as int,
            self.month as int,
            self.day as int,
        )
    }

    /// Days from 1970-01-01 to this date.
    pub open spec fn days(self) -> int {
        epoch_days(self.year as int, self.month as int, self.day as int)
    }
}

impl UtcStamp {
    /// The stamp is the UTC reading of the instant `ts_millis` milliseconds
    /// after 1970-01-01 00:00:00.
    pub open spec fn reads(self, ts_millis: int) -> bool {
        let rest = ts_millis % day_millis();
        &&& self.date.valid()
        &&& self.date.days() == ts_millis / day_millis()
        &&& self.hour == rest / 3_600_000
        &&& self.minute == (rest / 60_000) % 60
        &&& self.second == (rest / 1000) % 60
    }
}

impl LocalStamp {
    /// The fields agree with each other as the calendar demands.
    pub open spec fn valid(self) -> bool {
        &&& self.date.valid()
        &&& self.hour < 24
        &&& self.weekday == weekday_of(self.date.days())
        &&& self.iso_year == iso_year_of(self.date.year as int, self.date.days())
        &&& self.iso_week == iso_week_of(self.date.year as int, self.date.days())
    }
}

/// The day count of the first day that `chrono` represents.
pub open spec fn min_days() -> int {
    epoch_days(min_year(), 1, 1)
}

/// The day count of the last day that `chrono` represents.
pub open spec fn max_days() -> int {
    epoch_days(max_year(), 12, 31)
}

/// Day count of a date. Wraps `chrono::NaiveDate::from_ymd_opt`, which gives
/// a date exactly when the day exists in the proleptic Gregorian calendar and
/// the year is in range, and `NaiveDate::to_epoch_days`, which counts its days
/// from 1970-01-01.
#[verifier::external_body]
pub(crate) fn epoch_days_from_civil(year: i32, month: u32, day: u32) -> (days: Option<i32>)
    ensures
        days is Some <==> (CivilDate { year, month, day }).valid(),
        days matches Some(n) ==> n == epoch_days(year as int, month as int, day as int),
{
    match chrono::NaiveDate::from_ymd_opt(year, month, day) {
        Some(date) => Some(date.to_epoch_days()),
        None => None,
    }
}

/// The date and the day of the week of a day count. Wraps
/// `chrono::NaiveDate::from_epoch_days`, which gives the date that many days
/// after 1970-01-01 unless it is out of range, read through the accessors
/// of `Datelike`; the day of the week, a Thursday for day 0, comes as
/// `Weekday::number_from_monday` counts it, 1 for Monday to 7 for Sunday.
#[verifier::external_body]
pub(crate) fn day_from_epoch_days(days: i32) -> (day: Option<(CivilDate, u32)>)
    ensures
        day is Some <==> min_days() <= days <= max_days(),
        day matches Some(d) ==> d.0.valid() && d.0.days() == days && d.1 == weekday_of(
            days as int,
        ),
{
    match chrono::NaiveDate::from_epoch_days(days) {
        Some(date) => Some(
            (
                CivilDate {
                    year: chrono::Datelike::year(&date),
                    month: chrono::Datelike::month(&date),
                    day: chrono::Datelike::day(&date),
                },
                chrono::Datelike::weekday(&date).number_from_monday(),
            ),
        ),
        None => None,
    }
}

/// The UTC reading of an instant. Wraps `chrono::TimeZone::timestamp_millis_opt`
/// on `Utc`, which gives a single date and time for a count of non-leap
/// milliseconds since 1970-01-01 00:00:00 UTC, and nothing when the day is
/// out of range.
#[verifier::external_body]
pub(crate) fn utc_stamp(ts_millis: i64) -> (stamp: Option<UtcStamp>)
    ensures
        stamp is Some <==> min_days() <= (ts_millis as int) / day_millis() <= max_days(),
        stamp matches Some(s) ==> s.reads(ts_millis as int),
{
    let at = chrono::TimeZone::timestamp_millis_opt(&chrono::Utc, ts_millis).single()?;
    Some(
        UtcStamp {
            date: CivilDate {
                year: chrono::Datelike::year(&at),
                month: chrono::Datelike::month(&at),
                day: chrono::Datelike::day(&at),
            },
            hour: chrono::Timelike::hour(&at),
            minute: chrono::Timelike::minute(&at),
            second: chrono::Timelike::second(&at),
        },
    )
}

/// The first instant whose local reading `local_stamp` asks for:
/// 0001-01-01 00:00:00 UTC, in milliseconds from 1970-01-01 00:00:00 UTC.
pub const MIN_LOCAL_INSTANT: i64 = -62_135_596_800_000;

/// The last instant whose local reading `local_stamp` asks for:
/// 9999-12-31 23:59:59.999 UTC.
pub const MAX_LOCAL_INSTANT: i64 = 253_402_300_799_999;

/// The reading of an instant in the machine's time zone. Wraps
/// `chrono::TimeZone::timestamp_millis_opt` on `Local` and the accessors of
/// `Datelike` and `Timelike`. The method gives a single reading for every
/// count of milliseconds whose day `chrono` represents, as the days of the
/// years 1 to 9999 are, so a reading comes back. Which zone applies is the
/// machine's affair, so of the reading the contract only says that its
/// fields fit together: a day of the calendar, its day of the week and its
/// ISO week.
#[verifier::external_body]
pub(crate) fn local_stamp_in_range(ts_millis: i64) -> (stamp: Option<LocalStamp>)
    requires
        MIN_LOCAL_INSTANT <= ts_millis <= MAX_LOCAL_INSTANT,
    ensures
        stamp is Some,
        stamp matches Some(s) ==> s.valid(),
{
    let at = chrono::TimeZone::timestamp_millis_opt(&chrono::Local, ts_millis).single()?;
    let week = chrono::Datelike::iso_week(&at);
    Some(
        LocalStamp {
            date: CivilDate {
                year: chrono::Datelike::year(&at),
                month: chrono::Datelike::month(&at),
                day: chrono::Datelike::day(&at),
            },
            hour: chrono::Timelike::hour(&at),
            weekday: chrono::Datelike::weekday(&at).number_from_monday(),
            iso_year: week.year(),
            iso_week: week.week(),
        },
    )
}

/// Today's date in the machine's time zone. Wraps `chrono::Local::now`,
/// read through `DateTime::date_naive`; clock and zone decide which day
/// comes back.
#[verifier::external_body]
pub(crate) fn today() -> (date: CivilDate)
    ensures
        date.valid(),
{
    let today = chrono::Local::now().date_naive();
    CivilDate {
        year: chrono::Datelike::year(&today),
        month: chrono::Datelike::month(&today),
        day: chrono::Datelike::day(&today),
    }
}

/// Today's date in the machine's time zone, as clock and zone give it.
pub fn today_local() -> (date: CivilDate)
    ensures
        date.valid(),
{
    today()
}

/// Whether the instant lies in the years 1 to 9999, where instants are
/// read in local time.
pub open spec fn in_local_range(ts_millis: i64) -> bool {
    MIN_LOCAL_INSTANT <= ts_millis <= MAX_LOCAL_INSTANT
}

/// Whether an instant, if there is one, is read in local time.
pub open spec fn has_local(ts_millis: Option<i64>) -> bool {
    ts_millis matches Some(ts) && in_local_range(ts)
}

/// The reading of an instant in the machine's time zone: what the zone's
/// rules give for an instant of the years 1 to 9999, none for any other.
pub fn local_stamp(ts_millis: i64) -> (stamp: Option<LocalStamp>)
    ensures
        stamp is Some <==> in_local_range(ts_millis),
        stamp matches Some(s) ==> s.valid(),
{
    if MIN_LOCAL_INSTANT <= ts_millis && ts_millis <= MAX_LOCAL_INSTANT {
        local_stamp_in_range(ts_millis)
    } else {
        None
    }
}

/// The days before each month, in closed form.
pub proof fn lemma_days_before_month(year: int)
    ensures
        days_before_month(year, 1) == 0,
        days_before_month(year, 2) == 31,
        days_before_month(year, 3) == 31 + days_in_month(year, 2),
        days_before_month(year, 4) == 62 + days_in_month(year, 2),
        days_before_month(year, 5) == 92 + days_in_month(year, 2),
        days_before_month(year, 6) == 123 + days_in_month(year, 2),
        days_before_month(year, 7) == 153 + days_in_month(year, 2),
        days_before_month(year, 8) == 184 + days_in_month(year, 2),
        days_before_month(year, 9) == 215 + days_in_month(year, 2),
        days_before_month(year, 10) == 245 + days_in_month(year, 2),
        days_before_month(year, 11) == 276 + days_in_month(year, 2),
        days_before_month(year, 12) == 306 + days_in_month(year, 2),
        days_before_month(year, 13) == 337 + days_in_month(year, 2),
{
    reveal_with_fuel(days_before_month, 14);
}

/// The quotient by 4 grows by one at the multiples of 4, and nowhere else.
proof fn lemma_step_4(year: int)
    ensures
        year / 4 - (year - 1) / 4 == if year % 4 == 0 {
            1int
        } else {
            0int
        },
{
}

/// The quotient by 100 grows by one at the multiples of 100, and nowhere else.
proof fn lemma_step_100(year: int)
    ensures
        year / 100 - (year - 1) / 100 == if year % 100 == 0 {
            1int
        } else {
            0int
        },
{
}

/// The quotient by 400 grows by one at the multiples of 400, and nowhere else.
proof fn lemma_step_400(year: int)
    ensures
        year / 400 - (year - 1) / 400 == if year % 400 == 0 {
            1int
        } else {
            0int
        },
{
}

/// Multiples of 400 are multiples of 100, and those are multiples of 4.
proof fn lemma_centuries(year: int)
    ensures
        year % 400 == 0 ==> year % 100 == 0,
        year % 100 == 0 ==> year % 4 == 0,
{
    if year % 400 == 0 {
        assert(year == 400 * (year / 400));
        assert(year == 100 * (4 * (year / 400)));
    }
    if year % 100 == 0 {
        assert(year == 100 * (year / 100));
        assert(year == 4 * (25 * (year / 100)));
    }
}

/// How the three quotients that count leap years grow from one year to the next.
proof fn lemma_quotient_step(year: int)
    ensures
        year / 4 - (year - 1) / 4 == if year % 4 == 0 {
            1int
        } else {
            0int
        },
        year / 100 - (year - 1) / 100 == if year % 100 == 0 {
            1int
        } else {
            0int
        },
        year / 400 - (year - 1) / 400 == if year % 400 == 0 {
            1int
        } else {
            0int
        },
        year % 400 == 0 ==> year % 100 == 0,
        year % 100 == 0 ==> year % 4 == 0,
{
    lemma_step_4(year);
    lemma_step_100(year);
    lemma_step_400(year);
    lemma_centuries(year);
}

/// A year has 365 days, or 366 when it is a leap year.
pub proof fn lemma_year_length(year: int)
    ensures
        days_before_year(year + 1) == days_before_year(year) + 365 + if is_leap_year(year) {
            1int
        } else {
            0int
        },
        days_before_year(year + 1) == days_before_year(year) + days_before_month(year, 13),
{
    reveal(days_before_year);
    lemma_quotient_step(year);
    let a = year / 4 - (year - 1) / 4;
    let b = year / 100 - (year - 1) / 100;
    let c = year / 400 - (year - 1) / 400;
    assert(leap_years_before(year + 1) - leap_years_before(year) == a - b + c);
    assert(a - b + c == if is_leap_year(year) {
        1int
    } else {
        0int
    });
    assert(days_before_month(year, 13) == 365 + if is_leap_year(year) {
        1int
    } else {
        0int
    }) by {
        lemma_days_before_month(year);
    }
}

/// 1970-01-01 is day 0.
pub proof fn lemma_epoch()
    ensures
        days_before_year(1970) == 0,
        epoch_days(1970, 1, 1) == 0,
{
    reveal(days_before_year);
}

/// Later years start on later days.
pub proof fn lemma_years_increase(first: int, second: int)
    requires
        first < second,
    ensures
        days_before_year(first + 1) <= days_before_year(second),
    decreases second - first,
{
    if first + 1 < second {
        lemma_years_increase(first, second - 1);
        lemma_year_length(second - 1);
    }
}

/// Whether the first date comes before the second in the calendar.
pub open spec fn date_before(a: CivilDate, b: CivilDate) -> bool {
    a.year < b.year || (a.year == b.year && (a.month < b.month || (a.month == b.month && a.day
        < b.day)))
}

/// The day count grows with the date.
pub proof fn lemma_days_increase(a: CivilDate, b: CivilDate)
    requires
        is_civil(a.year as int, a.month as int, a.day as int),
        is_civil(b.year as int, b.month as int, b.day as int),
        date_before(a, b),
    ensures
        a.days() < b.days(),
{
    lemma_days_before_month(a.year as int);
    lemma_days_before_month(b.year as int);
    if a.year < b.year {
        lemma_years_increase(a.year as int, b.year as int);
        lemma_year_length(a.year as int);
    }
}

/// Two days of the calendar with the same day count are the same date.
pub proof fn lemma_days_injective(a: CivilDate, b: CivilDate)
    requires
        is_civil(a.year as int, a.month as int, a.day as int),
        is_civil(b.year as int, b.month as int, b.day as int),
        a.days() == b.days(),
    ensures
        a == b,
{
    if date_before(a, b) {
        lemma_days_increase(a, b);
    } else if date_before(b, a) {
        lemma_days_increase(b, a);
    }
}

/// The day count of every date with a year that `chrono` represents lies
/// between the counts of its first and last day.
pub proof fn lemma_days_in_range(date: CivilDate)
    requires
        date.valid(),
    ensures
        min_days() <= date.days() <= max_days(),
        -97_000_000 < min_days() < -90_000_000,
        90_000_000 < max_days() < 97_000_000,
{
    let first = CivilDate { year: (-262143i32), month: 1u32, day: 1u32 };
    let last = CivilDate { year: 262142i32, month: 12u32, day: 31u32 };
    lemma_days_before_month(-262143);
    lemma_days_before_month(262142);
    reveal(days_before_year);
    if date_before(first, date) {
        lemma_days_increase(first, date);
    }
    if date_before(date, last) {
        lemma_days_increase(date, last);
    }
}

/// The year as dates are written: four digits from 0 to 9999, else a sign
/// and at least four digits.
pub open spec fn year_text(year: int) -> Seq<char> {
    if 0 <= year <= 9999 {
        four_digits(year as nat)
    } else if year < 0 {
        if -year <= 9999 {
            seq!['-'] + four_digits((-year) as nat)
        } else {
            seq!['-'] + decimal((-year) as nat)
        }
    } else {
        seq!['+'] + decimal(year as nat)
    }
}

/// A date written as year, month and day with hyphens between: `2025-03-15`.
pub open spec fn date_text(date: CivilDate) -> Seq<char> {
    year_text(date.year as int) + seq!['-'] + two_digits(date.month as nat) + seq!['-']
        + two_digits(date.day as nat)
}

/// Appends the year as dates are written.
pub fn push_year(out: &mut Vec<char>, year: i32)
    ensures
        final(out)@ == old(out)@ + year_text(year as int),
{
    if 0 <= year && year <= 9999 {
        push_four_digits(out, year as u32);
    } else if year < 0 {
        out.push('-');
        let magnitude: u64 = (-(year as i64)) as u64;
        if magnitude <= 9999 {
            push_four_digits(out, magnitude as u32);
        } else {
            push_decimal(out, magnitude);
        }
        assert(out@ =~= old(out)@ + year_text(year as int));
    } else {
        out.push('+');
        push_decimal(out, year as u64);
        assert(out@ =~= old(out)@ + year_text(year as int));
    }
}

/// Appends the date as `date_text` writes it.
pub fn push_date(out: &mut Vec<char>, date: CivilDate)
    requires
        date.month < 100,
        date.day < 100,
    ensures
        final(out)@ == old(out)@ + date_text(date),
{
    push_year(out, date.year);
    out.push('-');
    push_two_digits(out, date.month);
    out.push('-');
    push_two_digits(out, date.day);
    assert(out@ =~= old(out)@ + date_text(date));
}

/// The Monday of ISO week 1 is a Monday, at most three days from January 1.
pub proof fn lemma_week_one_monday(year: int)
    ensures
        weekday_of(week_one_monday(year)) == 1,
        (week_one_monday(year) + 3) % 7 == 0,
        days_before_year(year) - 3 <= week_one_monday(year) <= days_before_year(year) + 3,
{
    assert(days_before_month(year, 1) == 0);
    let jan4 = epoch_days(year, 1, 4);
    assert(jan4 == days_before_year(year) + 3);
    let w = (jan4 + 3) % 7;
    assert(week_one_monday(year) == jan4 - w);
    assert((jan4 - w + 3) % 7 == 0);
}

/// The Mondays that start week 1 of two consecutive years are 52 or 53
/// weeks apart.
pub proof fn lemma_iso_year_length(year: int)
    ensures
        week_one_monday(year + 1) - week_one_monday(year) == 364 || week_one_monday(year + 1)
            - week_one_monday(year) == 371,
{
    lemma_week_one_monday(year);
    lemma_week_one_monday(year + 1);
    lemma_year_length(year);
    let a = week_one_monday(year);
    let b = week_one_monday(year + 1);
    assert(359 <= b - a <= 372);
    assert((b - a) % 7 == 0) by {
        assert((a + 3) % 7 == 0);
        assert((b + 3) % 7 == 0);
    }
}

/// Every day lies in an ISO week numbered 1 to 53 of the year before its
/// calendar year, that year, or the next.
pub proof fn lemma_iso_week_range(date: CivilDate)
    requires
        is_civil(date.year as int, date.month as int, date.day as int),
    ensures
        1 <= iso_week_of(date.year as int, date.days()) <= 53,
        week_one_monday(iso_year_of(date.year as int, date.days())) <= date.days(),
        date.days() < week_one_monday(iso_year_of(date.year as int, date.days()) + 1),
{
    let y = date.year as int;
    let n = date.days();
    assert(days_before_year(y) <= n < days_before_year(y + 1)) by {
        lemma_days_before_month(y);
        lemma_year_length(y);
    }
    lemma_year_length(y - 1);
    lemma_year_length(y);
    lemma_year_length(y + 1);
    lemma_week_one_monday(y - 1);
    lemma_week_one_monday(y);
    lemma_week_one_monday(y + 1);
    lemma_week_one_monday(y + 2);
    let iy = iso_year_of(y, n);
    lemma_iso_year_length(iy);
    let a = week_one_monday(iy);
    let b = week_one_monday(iy + 1);
    assert(a <= n < b);
    assert(0 <= n - a <= 370);
}

/// The day counts of the years from 1970 to 2100 are small.
pub proof fn lemma_modern_years(year: int)
    requires
        1970 <= year <= 2100,
    ensures
        0 <= days_before_year(year) <= 366 * (year - 1970),
    decreases year,
{
    if year == 1970 {
        lemma_epoch();
    } else {
        lemma_modern_years(year - 1);
        lemma_year_length(year - 1);
    }
}

/// The last day of a month is the day before the first of the next month.
pub proof fn lemma_month_end(year: int, month: int)
    requires
        1 <= month <= 12,
    ensures
        epoch_days(year, month, days_in_month(year, month)) + 1 == if month == 12 {
            epoch_days(year + 1, 1, 1)
        } else {
            epoch_days(year, month + 1, 1)
        },
{
    lemma_days_before_month(year);
    lemma_year_length(year);
    assert(days_before_month(year + 1, 1) == 0);
}

impl CivilDate {
    /// The number of days from 1970-01-01 to this date.
    pub fn epoch_day(&self) -> (days: i32)
        requires
            self.valid(),
        ensures
            days == self.days(),
    {
        match epoch_days_from_civil(self.year, self.month, self.day) {
            Some(days) => days,
            None => 0,
        }
    }

    /// Whether the date comes before `other` in the calendar.
    pub fn is_before(&self, other: &CivilDate) -> (before: bool)
        ensures
            before == date_before(*self, *other),
    {
        self.year < other.year || (self.year == other.year && (self.month < other.month || (
        self.month == other.month && self.day < other.day)))
    }
}

} // verus!
