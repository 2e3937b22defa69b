//! Windows: the time span that a crawl and its statistics are about, as the
//! user writes it (`2025`, `2025-03`, `2025-W12`, `2025-03-15`, `life`).

use crate::calendar::{
    date_before, date_text, day_from_epoch_days, day_millis, days_in_month,
    epoch_days_from_civil, is_civil, lemma_days_before_month, lemma_days_in_range,
    lemma_days_increase, lemma_days_injective, lemma_modern_years, lemma_month_end,
    lemma_week_one_monday, today_local, week_one_monday, CivilDate,
};
use crate::stats::ScopeKind;
use crate::text::{
    all_digits, chars_of, decimal, digits_value, four_digits, lemma_four_digits,
    lemma_trimmed_fixed,
    lemma_two_digits, push_decimal, push_signed_decimal, push_str, push_two_digits, read_digits,
    signed_decimal, string_of, trim, trimmed, two_digits,
};
use vstd::prelude::*;

verus! {

/// A window: its key as the user wrote it, its kind, and its first and last
/// day, both inside.
#[derive(Clone, Debug)]
pub struct WindowScope {
    pub key: String,
    pub scope_type: ScopeKind,
    pub from: CivilDate,
    pub to: CivilDate,
}

/// A window as a value of specifications.
pub struct ScopeView {
    pub key: Seq<char>,
    pub scope_type: ScopeKind,
    pub from: CivilDate,
    pub to: CivilDate,
}

impl View for WindowScope {
    type V = ScopeView;

    open spec fn view(&self) -> ScopeView {
        ScopeView { key: self.key@, scope_type: self.scope_type, from: self.from, to: self.to }
    }
}

/// Why a text is no window.
#[derive(Clone, Debug, PartialEq, Eq)]
pub enum WindowError {
    /// The text has none of the five forms.
    InvalidFormat { window: String },
    /// The text names a week that its ISO year does not have.
    WeekOutsideYear { year: i32, week: u32 },
}

impl WindowError {
    /// What the error says to the user: the forms that are accepted, or the
    /// week that lies outside its year.
    pub open spec fn text(self) -> Seq<char> {
        match self {
            WindowError::InvalidFormat { window } => "Invalid window format: '"@ + window@
                + "'. Expected: '2025', '2025-03', '2025-W12', '2025-03-15', or 'life'"@,
            WindowError::WeekOutsideYear { year, week } => "Invalid week for year: "@
                + signed_decimal(year as int) + "-W"@ + if week < 100 {
                two_digits(week as nat)
            } else {
                decimal(week as nat)
            },
        }
    }

    /// What the error says to the user.
    pub fn message(&self) -> (text: String)
        ensures
            text@ == self.text(),
    {
        let mut out: Vec<char> = Vec::new();
        match self {
            WindowError::InvalidFormat { window } => {
                push_str(&mut out, "Invalid window format: '");
                push_str(&mut out, window.as_str());
                push_str(
                    &mut out,
                    "'. Expected: '2025', '2025-03', '2025-W12', '2025-03-15', or 'life'",
                );
            },
            WindowError::WeekOutsideYear { year, week } => {
                push_str(&mut out, "Invalid week for year: ");
                push_signed_decimal(&mut out, *year as i64);
                push_str(&mut out, "-W");
                if *week < 100 {
                    push_two_digits(&mut out, *week);
                } else {
                    push_decimal(&mut out, *week as u64);
                }
            },
        }
        assert(out@ =~= self.text());
        string_of(&out)
    }
}

/// The first year that a year, month or week window may name.
pub const FIRST_YEAR: u32 = 1970;

/// The last year that a year, month or week window may name.
pub const LAST_YEAR: u32 = 2099;

/// The year of a text of the form `YYYY`, from 1970 to 2099.
pub open spec fn year_form(t: Seq<char>) -> Option<int> {
    if t.len() == 4 && all_digits(t) && FIRST_YEAR <= digits_value(t) <= LAST_YEAR {
        Some(digits_value(t) as int)
    } else {
        None
    }
}

/// Year and month of a text of the form `YYYY-MM`.
pub open spec fn month_form(t: Seq<char>) -> Option<(int, int)> {
    if t.len() == 7 && all_digits(t.subrange(0, 4)) && t[4] == '-' && all_digits(t.subrange(5, 7))
        && FIRST_YEAR <= digits_value(t.subrange(0, 4)) <= LAST_YEAR && 1 <= digits_value(
        t.subrange(5, 7),
    ) <= 12 {
        Some((digits_value(t.subrange(0, 4)) as int, digits_value(t.subrange(5, 7)) as int))
    } else {
        None
    }
}

/// Year and week of a text of the form `YYYY-Www`.
pub open spec fn week_form(t: Seq<char>) -> Option<(int, int)> {
    if t.len() == 8 && all_digits(t.subrange(0, 4)) && t[4] == '-' && t[5] == 'W' && all_digits(
        t.subrange(6, 8),
    ) && FIRST_YEAR <= digits_value(t.subrange(0, 4)) <= LAST_YEAR && 1 <= digits_value(
        t.subrange(6, 8),
    ) <= 53 {
        Some((digits_value(t.subrange(0, 4)) as int, digits_value(t.subrange(6, 8)) as int))
    } else {
        None
    }
}

/// Year, month and day of a text of the form `YYYY-MM-DD` that names a day
/// of the calendar.
pub open spec fn day_form(t: Seq<char>) -> Option<(int, int, int)> {
    if t.len() == 10 && all_digits(t.subrange(0, 4)) && t[4] == '-' && all_digits(
        t.subrange(5, 7),
    ) && t[7] == '-' && all_digits(t.subrange(8, 10)) && is_civil(
        digits_value(t.subrange(0, 4)) as int,
        digits_value(t.subrange(5, 7)) as int,
        digits_value(t.subrange(8, 10)) as int,
    ) {
        Some(
            (
                digits_value(t.subrange(0, 4)) as int,
                digits_value(t.subrange(5, 7)) as int,
                digits_value(t.subrange(8, 10)) as int,
            ),
        )
    } else {
        None
    }
}

/// The text `life`.
pub open spec fn life_text() -> Seq<char> {
    seq!['l', 'i', 'f', 'e']
}

/// The date with the given numbers.
pub open spec fn civil(year: int, month: int, day: int) -> CivilDate {
    CivilDate { year: year as i32, month: month as u32, day: day as u32 }
}

/// The day count of the Monday of ISO week `week` of `year`.
pub open spec fn week_start(year: int, week: int) -> int {
    week_one_monday(year) + 7 * (week - 1)
}

/// Whether the ISO year `year` has a week `week`: whether the Monday of
/// that week comes before the Monday that starts week 1 of the next year.
pub open spec fn week_in_year(year: int, week: int) -> bool {
    week_start(year, week) < week_one_monday(year + 1)
}

/// Whether `scope` is the window that the trimmed text `t` denotes when
/// today is `today`.
pub open spec fn denotes(t: Seq<char>, today: CivilDate, scope: ScopeView) -> bool {
    if t == life_text() {
        scope == (ScopeView {
            key: t,
            scope_type: ScopeKind::Life,
            from: civil(1970, 1, 1),
            to: today,
        })
    } else if year_form(t) is Some {
        let year = year_form(t)->0;
        scope == (ScopeView {
            key: t,
            scope_type: ScopeKind::Year,
            from: civil(year, 1, 1),
            to: civil(year, 12, 31),
        })
    } else if month_form(t) is Some {
        let (year, month) = month_form(t)->0;
        scope == (ScopeView {
            key: t,
            scope_type: ScopeKind::Month,
            from: civil(year, month, 1),
            to: civil(year, month, days_in_month(year, month)),
        })
    } else if week_form(t) is Some {
        let (year, week) = week_form(t)->0;
        &&& scope.key == t
        &&& scope.scope_type == ScopeKind::Week
        &&& scope.from.valid()
        &&& scope.from.days() == week_start(year, week)
        &&& scope.to.valid()
        &&& scope.to.days() == week_start(year, week) + 6
        &&& week_in_year(year, week)
    } else if day_form(t) is Some {
        let (year, month, day) = day_form(t)->0;
        scope == (ScopeView {
            key: t,
            scope_type: ScopeKind::Day,
            from: civil(year, month, day),
            to: civil(year, month, day),
        })
    } else {
        false
    }
}

/// Whether the trimmed text `t` denotes a window.
pub open spec fn is_window(t: Seq<char>, today: CivilDate) -> bool {
    exists|scope: ScopeView| denotes(t, today, scope)
}

/// The error for a trimmed text that denotes no window.
pub open spec fn fails_as(t: Seq<char>, error: WindowError) -> bool {
    match week_form(t) {
        Some((year, week)) => error matches WindowError::WeekOutsideYear { year: y, week: w } && y
            == year && w == week,
        None => error matches WindowError::InvalidFormat { window } && window@ == t,
    }
}

/// Whether `parsed` is what parsing the trimmed text `t` gives when today is
/// `today`: the window that `t` denotes, or the error for a text that
/// denotes none.
pub open spec fn parses_as(
    t: Seq<char>,
    today: CivilDate,
    parsed: Result<WindowScope, WindowError>,
) -> bool {
    match parsed {
        Ok(scope) => denotes(t, today, scope@),
        Err(error) => !is_window(t, today) && fails_as(t, error),
    }
}

/// A text denotes at most one window.
pub proof fn lemma_denotes_one(t: Seq<char>, today: CivilDate, a: ScopeView, b: ScopeView)
    requires
        denotes(t, today, a),
        denotes(t, today, b),
    ensures
        a == b,
{
    if t != life_text() && year_form(t) is None && month_form(t) is None && week_form(t) is Some {
        lemma_days_injective(a.from, b.from);
        lemma_days_injective(a.to, b.to);
    }
}

/// The window with the given parts.
fn scope(key: &Vec<char>, scope_type: ScopeKind, from: CivilDate, to: CivilDate) -> (out:
    WindowScope)
    ensures
        out@ == (ScopeView { key: key@, scope_type, from, to }),
{
    WindowScope { key: string_of(key), scope_type, from, to }
}

/// Whether the text is `life`.
fn is_life(t: &Vec<char>) -> (life: bool)
    ensures
        life == (t@ == life_text()),
{
    if t.len() == 4 && t[0] == 'l' && t[1] == 'i' && t[2] == 'f' && t[3] == 'e' {
        assert(t@ =~= life_text());
        true
    } else {
        false
    }
}

/// The year that the first four characters write, where they are digits
/// and the year is from 1970 to 2099.
fn read_year(t: &Vec<char>) -> (year: Option<u32>)
    requires
        t@.len() >= 4,
    ensures
        year is Some <==> all_digits(t@.subrange(0, 4)) && FIRST_YEAR <= digits_value(
            t@.subrange(0, 4),
        ) <= LAST_YEAR,
        year matches Some(y) ==> y == digits_value(t@.subrange(0, 4)),
{
    match read_digits(t, 0, 4) {
        Some(y) => if FIRST_YEAR <= y && y <= LAST_YEAR {
            Some(y)
        } else {
            None
        },
        None => None,
    }
}

impl WindowScope {
    /// The window that `window` denotes when today is `today`. White space
    /// around the text does not count.
    pub fn parse_on(window: &str, today: CivilDate) -> (parsed: Result<WindowScope, WindowError>)
        requires
            today.valid(),
        ensures
            parses_as(trimmed(window@), today, parsed),
    {
        let all = chars_of(window);
        let t = trim(&all);
        let n = t.len();
        if is_life(&t) {
            let out = scope(
                &t,
                ScopeKind::Life,
                CivilDate { year: 1970, month: 1, day: 1 },
                today,
            );
            assert(denotes(t@, today, out@));
            return Ok(out);
        }
        if n == 4 {
            assert(t@.subrange(0, 4) =~= t@);
            match read_year(&t) {
                Some(y) => {
                    let out = scope(
                        &t,
                        ScopeKind::Year,
                        CivilDate { year: y as i32, month: 1, day: 1 },
                        CivilDate { year: y as i32, month: 12, day: 31 },
                    );
                    assert(denotes(t@, today, out@));
                    return Ok(out);
                },
                None => {},
            }
        } else if n == 7 && t[4] == '-' {
            match (read_year(&t), read_digits(&t, 5, 2)) {
                (Some(y), Some(m)) => {
                    if 1 <= m && m <= 12 {
                        let to = Self::month_end(y as i32, m);
                        let out = scope(
                            &t,
                            ScopeKind::Month,
                            CivilDate { year: y as i32, month: m, day: 1 },
                            to,
                        );
                        assert(denotes(t@, today, out@));
                        return Ok(out);
                    }
                },
                _ => {},
            }
        } else if n == 8 && t[4] == '-' && t[5] == 'W' {
            match (read_year(&t), read_digits(&t, 6, 2)) {
                (Some(y), Some(w)) => {
                    if 1 <= w && w <= 53 {
                        let monday = Self::week_one_monday_of(y as i32) + 7 * (w as i32 - 1);
                        if monday < Self::week_one_monday_of(y as i32 + 1) {
                            let (from, to) = Self::week_days(monday);
                            let out = scope(&t, ScopeKind::Week, from, to);
                            assert(denotes(t@, today, out@));
                            return Ok(out);
                        } else {
                            return Err(WindowError::WeekOutsideYear { year: y as i32, week: w });
                        }
                    }
                },
                _ => {},
            }
        } else if n == 10 && t[4] == '-' && t[7] == '-' {
            match (read_digits(&t, 0, 4), read_digits(&t, 5, 2), read_digits(&t, 8, 2)) {
                (Some(y), Some(m), Some(d)) => {
                    if epoch_days_from_civil(y as i32, m, d).is_some() {
                        let day = CivilDate { year: y as i32, month: m, day: d };
                        let out = scope(&t, ScopeKind::Day, day, day);
                        assert(denotes(t@, today, out@));
                        return Ok(out);
                    }
                },
                _ => {},
            }
        }
        proof {
            assert(week_form(t@) is None);
            assert(!is_window(t@, today));
        }
        Err(WindowError::InvalidFormat { window: string_of(&t) })
    }

    /// The window that `window` denotes. Only `life` reads the clock: its
    /// last day is today's date in the machine's time zone.
    pub fn parse(window: &str) -> (parsed: Result<WindowScope, WindowError>)
        ensures
            exists|today: CivilDate|
                today.valid() && #[trigger] parses_as(trimmed(window@), today, parsed),
            trimmed(window@) != life_text() ==> forall|today: CivilDate|
                #[trigger] parses_as(trimmed(window@), today, parsed),
    {
        let today = today_local();
        let parsed = Self::parse_on(window, today);
        proof {
            let t = trimmed(window@);
            assert(parses_as(t, today, parsed));
            if t != life_text() {
                assert forall|other: CivilDate| #[trigger] parses_as(t, other, parsed) by {
                    assert forall|scope: ScopeView| denotes(t, today, scope) == denotes(
                        t,
                        other,
                        scope,
                    ) by {}
                    if is_window(t, other) {
                        let scope = choose|scope: ScopeView| denotes(t, other, scope);
                        assert(denotes(t, today, scope));
                    }
                    if is_window(t, today) {
                        let scope = choose|scope: ScopeView| denotes(t, today, scope);
                        assert(denotes(t, other, scope));
                    }
                }
            }
        }
        parsed
    }

    /// The last day of a month of the years 1970 to 2099.
    fn month_end(year: i32, month: u32) -> (last: CivilDate)
        requires
            FIRST_YEAR <= year <= LAST_YEAR,
            1 <= month <= 12,
        ensures
            last == civil(year as int, month as int, days_in_month(
                year as int,
                month as int,
            )),
    {
        let (next_year, next_month): (i32, u32) = if month == 12 {
            (year + 1, 1)
        } else {
            (year, month + 1)
        };
        let ghost length = days_in_month(year as int, month as int);
        let ghost expected = civil(year as int, month as int, length);
        proof {
            lemma_month_end(year as int, month as int);
            lemma_days_in_range(expected);
            lemma_days_in_range(CivilDate { year: next_year, month: next_month, day: 1 });
        }
        let first = match epoch_days_from_civil(next_year, next_month, 1) {
            Some(days) => days,
            None => 0,
        };
        match day_from_epoch_days(first - 1) {
            Some(last) => {
                proof {
                    lemma_days_injective(last.0, expected);
                }
                last.0
            },
            None => CivilDate { year, month, day: 28 },
        }
    }

    /// The day count of the Monday that starts ISO week 1 of a year from
    /// 1970 to 2100.
    fn week_one_monday_of(year: i32) -> (monday: i32)
        requires
            FIRST_YEAR <= year <= LAST_YEAR + 1,
        ensures
            monday == week_one_monday(year as int),
            -3 <= monday <= 366 * (year - 1970) + 3,
    {
        let ghost jan4 = CivilDate { year, month: 1, day: 4 };
        proof {
            lemma_days_before_month(year as int);
            lemma_days_in_range(jan4);
            lemma_modern_years(year as int);
            lemma_week_one_monday(year as int);
        }
        let fourth: i32 = match epoch_days_from_civil(year, 1, 4) {
            Some(days) => days,
            None => 0,
        };
        let weekday: u32 = match day_from_epoch_days(fourth) {
            Some(day) => day.1,
            None => 1,
        };
        fourth - (weekday as i32 - 1)
    }

    /// The Monday with the day count `monday` and the Sunday after it.
    fn week_days(monday: i32) -> (days: (CivilDate, CivilDate))
        requires
            -100_000 <= monday <= 100_000,
        ensures
            days.0.valid(),
            days.0.days() == monday,
            days.1.valid(),
            days.1.days() == monday + 6,
    {
        proof {
            lemma_days_in_range(CivilDate { year: 1970, month: 1, day: 1 });
        }
        let from = match day_from_epoch_days(monday) {
            Some(day) => day.0,
            None => CivilDate { year: 1970, month: 1, day: 1 },
        };
        let to = match day_from_epoch_days(monday + 6) {
            Some(day) => day.0,
            None => CivilDate { year: 1970, month: 1, day: 1 },
        };
        (from, to)
    }

    /// The dates are days of the calendar.
    pub open spec fn wf(&self) -> bool {
        self.from.valid() && self.to.valid()
    }

    /// Whether `day` lies in the window.
    pub fn covers(&self, day: &CivilDate) -> (inside: bool)
        ensures
            inside == (!date_before(*day, self.from) && !date_before(self.to, *day)),
    {
        !day.is_before(&self.from) && !self.to.is_before(day)
    }

    /// Whether today's date in the machine's time zone lies in the window.
    pub fn covers_now(&self) -> (inside: bool)
        ensures
            exists|today: CivilDate|
                #![trigger date_before(today, self.from)]
                today.valid() && inside == (!date_before(today, self.from) && !date_before(
                    self.to,
                    today,
                )),
    {
        let today = today_local();
        let inside = self.covers(&today);
        assert(inside == (!date_before(today, self.from) && !date_before(self.to, today)));
        inside
    }

    /// The instants of the window, in milliseconds since 1970-01-01
    /// 00:00:00 UTC: from midnight of the first day, or from no bound in a
    /// `life` window, to the last millisecond of the last day.
    pub fn to_timestamp_range(&self) -> (range: (Option<i64>, i64))
        requires
            self.wf(),
        ensures
            range.0 == if self.scope_type == ScopeKind::Life {
                None::<i64>
            } else {
                Some((self.from.days() * day_millis()) as i64)
            },
            range.1 == self.to.days() * day_millis() + day_millis() - 1,
    {
        proof {
            lemma_days_in_range(self.from);
            lemma_days_in_range(self.to);
        }
        let start_ts = match self.scope_type {
            ScopeKind::Life => None,
            _ => Some(self.from.epoch_day() as i64 * 86_400_000),
        };
        let end_ts = self.to.epoch_day() as i64 * 86_400_000 + 86_399_999;
        (start_ts, end_ts)
    }
}

impl ScopeView {
    /// The window is one of the five kinds, with the key written as that
    /// kind's form demands and the days that the kind gives it.
    pub open spec fn canonical(self, today: CivilDate) -> bool {
        match self.scope_type {
            ScopeKind::Life => self.key == life_text() && self.from == civil(1970, 1, 1)
                && self.to == today,
            ScopeKind::Year => {
                &&& FIRST_YEAR <= self.from.year <= LAST_YEAR
                &&& self.key == four_digits(self.from.year as nat)
                &&& self.from == civil(self.from.year as int, 1, 1)
                &&& self.to == civil(self.from.year as int, 12, 31)
            },
            ScopeKind::Month => {
                &&& FIRST_YEAR <= self.from.year <= LAST_YEAR
                &&& 1 <= self.from.month <= 12
                &&& self.key == four_digits(self.from.year as nat) + seq!['-'] + two_digits(
                    self.from.month as nat,
                )
                &&& self.from.day == 1
                &&& self.to == civil(
                    self.from.year as int,
                    self.from.month as int,
                    days_in_month(self.from.year as int, self.from.month as int),
                )
            },
            ScopeKind::Week => exists|year: int, week: int|
                {
                    &&& FIRST_YEAR <= year <= LAST_YEAR
                    &&& 1 <= week <= 53
                    &&& self.key == #[trigger] week_text(year, week)
                    &&& self.from.valid()
                    &&& self.from.days() == week_start(year, week)
                    &&& self.to.valid()
                    &&& self.to.days() == week_start(year, week) + 6
                    &&& week_in_year(year, week)
                },
            ScopeKind::Day => {
                &&& 0 <= self.from.year <= 9999
                &&& is_civil(self.from.year as int, self.from.month as int, self.from.day as int)
                &&& self.key == date_text(self.from)
                &&& self.to == self.from
            },
        }
    }
}

/// The text of a week window: year, `-W`, and the week in two digits.
pub open spec fn week_text(year: int, week: int) -> Seq<char> {
    four_digits(year as nat) + seq!['-', 'W'] + two_digits(week as nat)
}

/// Parsing the key of a window gives the window back: for each kind, the
/// key stands for itself when trimmed, and denotes this window and no other.
pub proof fn lemma_key_denotes_scope(scope: ScopeView, today: CivilDate)
    requires
        scope.canonical(today),
    ensures
        trimmed(scope.key) == scope.key,
        denotes(scope.key, today, scope),
        forall|other: ScopeView| denotes(scope.key, today, other) ==> other == scope,
{
    let t = scope.key;
    match scope.scope_type {
        ScopeKind::Life => {
            lemma_trimmed_fixed(t);
        },
        ScopeKind::Year => {
            lemma_four_digits(scope.from.year as nat);
            lemma_trimmed_fixed(t);
        },
        ScopeKind::Month => {
            let y = scope.from.year as nat;
            let m = scope.from.month as nat;
            lemma_four_digits(y);
            lemma_two_digits(m);
            assert(t.subrange(0, 4) =~= four_digits(y));
            assert(t.subrange(5, 7) =~= two_digits(m));
            assert(t[0] == four_digits(y)[0]);
            assert(t.last() == two_digits(m)[1]);
            lemma_trimmed_fixed(t);
        },
        ScopeKind::Week => {
            let (year, week) = choose|year: int, week: int|
                {
                    &&& FIRST_YEAR <= year <= LAST_YEAR
                    &&& 1 <= week <= 53
                    &&& scope.key == #[trigger] week_text(year, week)
                    &&& scope.from.valid()
                    &&& scope.from.days() == week_start(year, week)
                    &&& scope.to.valid()
                    &&& scope.to.days() == week_start(year, week) + 6
                    &&& week_in_year(year, week)
                };
            lemma_four_digits(year as nat);
            lemma_two_digits(week as nat);
            assert(t.subrange(0, 4) =~= four_digits(year as nat));
            assert(t.subrange(6, 8) =~= two_digits(week as nat));
            assert(t[0] == four_digits(year as nat)[0]);
            assert(t.last() == two_digits(week as nat)[1]);
            lemma_trimmed_fixed(t);
            assert(week_form(t) == Some((year, week)));
        },
        ScopeKind::Day => {
            let y = scope.from.year as nat;
            let m = scope.from.month as nat;
            let d = scope.from.day as nat;
            lemma_four_digits(y);
            lemma_two_digits(m);
            lemma_two_digits(d);
            assert(t.subrange(0, 4) =~= four_digits(y));
            assert(t.subrange(5, 7) =~= two_digits(m));
            assert(t.subrange(8, 10) =~= two_digits(d));
            assert(t[0] == four_digits(y)[0]);
            assert(t.last() == two_digits(d)[1]);
            lemma_trimmed_fixed(t);
        },
    }
    assert forall|other: ScopeView| denotes(scope.key, today, other) implies other == scope by {
        lemma_denotes_one(scope.key, today, other, scope);
    }
}

/// The first day of a window is no later than its last day. A `life`
/// window is left out: its last day is the day that the clock gives.
pub proof fn lemma_scope_ordered(t: Seq<char>, today: CivilDate, scope: ScopeView)
    requires
        denotes(t, today, scope),
        t != life_text(),
    ensures
        !date_before(scope.to, scope.from),
{
    if date_before(scope.to, scope.from) {
        if week_form(t) is Some && year_form(t) is None && month_form(t) is None {
            lemma_days_increase(scope.to, scope.from);
        }
    }
}

} // verus!
