//! Calendar facts about millisecond timestamps, from the `chrono` crate.
use vstd::prelude::*;
use chrono::{Datelike, FixedOffset, TimeZone};
use crate::number::{decimal_text, digit_char};

verus! {

/// Milliseconds in a day.
pub const MS_PER_DAY: i64 = 86_400_000;

/// Offset of Japan Standard Time from UTC, in seconds.
pub const JST_OFFSET_SECS: i32 = 32_400;

/// The first instant chrono represents, -262143-01-01 00:00:00.000, in
/// milliseconds from the Unix epoch.
pub const CHRONO_MIN_MS: i64 = -8_334_601_228_800_000;

/// The last instant chrono represents, 262142-12-31 23:59:59.999, in
/// milliseconds from the Unix epoch.
pub const CHRONO_MAX_MS: i64 = 8_210_266_876_799_999;

/// An instant, in milliseconds from the Unix epoch, within chrono's range of dates.
pub open spec fn in_chrono_range(ms: int) -> bool {
    CHRONO_MIN_MS <= ms <= CHRONO_MAX_MS
}

/// A timestamp the calendar functions accept at an offset: the instant and
/// its local time at that offset both lie within chrono's range of dates.
pub open spec fn in_calendar_range(ts_ms: int, offset_secs: int) -> bool {
    in_chrono_range(ts_ms) && in_chrono_range(ts_ms + offset_secs * 1000)
}

/// Whether the calendar functions accept `ts_ms` at `offset_secs`.
pub fn calendar_accepts(ts_ms: i64, offset_secs: i32) -> (r: bool)
    ensures
        r == in_calendar_range(ts_ms as int, offset_secs as int),
{
    let local: i128 = ts_ms as i128 + offset_secs as i128 * 1000;
    CHRONO_MIN_MS <= ts_ms && ts_ms <= CHRONO_MAX_MS && CHRONO_MIN_MS as i128 <= local && local
        <= CHRONO_MAX_MS as i128
}

/// An offset from UTC that chrono accepts: strictly within a day.
pub open spec fn valid_offset(offset_secs: i32) -> bool {
    -86_400 < offset_secs < 86_400
}

/// The local calendar day of a timestamp at a fixed offset, counted as chrono
/// counts days from the common era (1970-01-01 is day 719,163).
pub open spec fn local_day_number(ts_ms: int, offset_secs: int) -> int {
    (ts_ms + offset_secs * 1000) / 86_400_000 + 719_163
}

/// The day of the week of a day number, Monday being 0 (day 1, 0001-01-01, is
/// a Monday).
pub open spec fn weekday_of_day(day: int) -> int {
    (day - 1) % 7
}

/// Three-letter English name of a day of the week, Monday being 0.
pub open spec fn weekday_abbrev(w: int) -> Seq<char> {
    if w == 0 {
        "Mon"@
    } else if w == 1 {
        "Tue"@
    } else if w == 2 {
        "Wed"@
    } else if w == 3 {
        "Thu"@
    } else if w == 4 {
        "Fri"@
    } else if w == 5 {
        "Sat"@
    } else {
        "Sun"@
    }
}

/// Milliseconds since the start of the local day of a timestamp at a fixed offset.
pub open spec fn local_ms_of_day(ts_ms: int, offset_secs: int) -> int {
    (ts_ms + offset_secs * 1000) % 86_400_000
}

/// A number below 100 as two digits, zero-padded.
pub open spec fn two_digits(n: int) -> Seq<char> {
    seq![digit_char((n / 10) as nat), digit_char((n % 10) as nat)]
}

/// The local time of day of a timestamp as `HH:MM`, zero-padded, on a 24-hour clock.
pub open spec fn clock_text(ts_ms: int, offset_secs: int) -> Seq<char> {
    let m = local_ms_of_day(ts_ms, offset_secs);
    two_digits(m / 3_600_000) + ":"@ + two_digits((m % 3_600_000) / 60_000)
}

/// A year between 0 and 9999 as four digits, zero-padded.
pub open spec fn four_digits(y: int) -> Seq<char> {
    two_digits(y / 100) + two_digits(y % 100)
}

/// A leap year of the proleptic Gregorian calendar (year 0 is one).
pub open spec fn is_leap_year(y: int) -> bool {
    (y % 4 == 0 && y % 100 != 0) || y % 400 == 0
}

/// Number of days of month `m` (1 to 12) of year `y`.
pub open spec fn days_in_month(y: int, m: int) -> int {
    if m == 2 {
        if is_leap_year(y) {
            29
        } else {
            28
        }
    } else if m == 4 || m == 6 || m == 9 || m == 11 {
        30
    } else {
        31
    }
}

/// Days of the common era before year `y`: the days of years 1 to `y - 1`,
/// counted negatively for years before 1.
pub open spec fn days_before_year(y: int) -> int {
    let p = y - 1;
    365 * p + p / 4 - p / 100 + p / 400
}

/// Days of year `y` before month `m`.
pub open spec fn days_before_month(y: int, m: int) -> int
    decreases m,
{
    if m <= 1 {
        0
    } else {
        days_before_month(y, m - 1) + days_in_month(y, m - 1)
    }
}

/// `(y, m, d)` is the proleptic Gregorian date of day `n` of the common era
/// (0001-01-01 being day 1).
pub open spec fn is_civil_date(y: int, m: int, d: int, n: int) -> bool {
    &&& 1 <= m <= 12
    &&& 1 <= d <= days_in_month(y, m)
    &&& n == days_before_year(y) + days_before_month(y, m) + d
}

/// The proleptic Gregorian date `(year, month, day)` of day `n` of the common era.
pub open spec fn civil_date(n: int) -> (int, int, int) {
    choose|ymd: (int, int, int)| is_civil_date(ymd.0, ymd.1, ymd.2, n)
}

/// Month and day of day `n` as `MM-DD`.
pub open spec fn month_day_text(n: int) -> Seq<char> {
    two_digits(civil_date(n).1) + "-"@ + two_digits(civil_date(n).2)
}

/// A year as chrono's `%Y` writes it: four digits, zero-padded, for the years
/// 0 to 9999; other years with a sign and at least four digits.
pub open spec fn year_text(y: int) -> Seq<char> {
    if 0 <= y <= 9999 {
        four_digits(y)
    } else if y < 0 {
        "-"@ + (if -y <= 9999 {
            four_digits(-y)
        } else {
            decimal_text((-y) as nat)
        })
    } else {
        "+"@ + decimal_text(y as nat)
    }
}

/// Date of day `n` as `YYYYMMDD`.
pub open spec fn date_digits(n: int) -> Seq<char> {
    year_text(civil_date(n).0) + two_digits(civil_date(n).1) + two_digits(civil_date(n).2)
}

/// Date of day `n` as `YYYY-MM-DD`.
pub open spec fn date_text(n: int) -> Seq<char> {
    year_text(civil_date(n).0) + "-"@ + month_day_text(n)
}

proof fn lemma_months_of_year(y: int)
    ensures
        days_before_month(y, 12) == 334 + (if is_leap_year(y) { 1int } else { 0 }),
{
    reveal_with_fuel(days_before_month, 13);
}

#[verifier::spinoff_prover]
proof fn lemma_days_of_year(y: int)
    ensures
        days_before_year(y + 1) == days_before_year(y) + 365 + (if is_leap_year(y) {
            1int
        } else {
            0
        }),
{
    let p = y - 1;
    assert(y / 4 - p / 4 == (if y % 4 == 0 { 1int } else { 0 }));
    assert(y / 100 - p / 100 == (if y % 100 == 0 { 1int } else { 0 }));
    assert(y / 400 - p / 400 == (if y % 400 == 0 { 1int } else { 0 }));
}

proof fn lemma_year_length(y: int)
    ensures
        days_before_year(y + 1) == days_before_year(y) + days_before_month(y, 12) + 31,
{
    lemma_months_of_year(y);
    lemma_days_of_year(y);
}

proof fn lemma_civil_witness(n: int) -> (ymd: (int, int, int))
    ensures
        is_civil_date(ymd.0, ymd.1, ymd.2, n),
    decreases (if n >= 1 { n - 1 } else { 1 - n }),
{
    if n == 1 {
        (1, 1, 1)
    } else if n > 1 {
        let (y, m, d) = lemma_civil_witness(n - 1);
        if d < days_in_month(y, m) {
            (y, m, d + 1)
        } else if m < 12 {
            (y, m + 1, 1)
        } else {
            lemma_year_length(y);
            (y + 1, 1, 1)
        }
    } else {
        let (y, m, d) = lemma_civil_witness(n + 1);
        if d > 1 {
            (y, m, d - 1)
        } else if m > 1 {
            (y, m - 1, days_in_month(y, m - 1))
        } else {
            lemma_year_length(y - 1);
            (y - 1, 12, 31)
        }
    }
}

/// Every day of the common era has a proleptic Gregorian date: the one that
/// `civil_date` picks is a valid date of that day.
pub proof fn lemma_civil_date_exists(n: int)
    ensures
        is_civil_date(civil_date(n).0, civil_date(n).1, civil_date(n).2, n),
{
    let w = lemma_civil_witness(n);
    assert(is_civil_date(w.0, w.1, w.2, n));
}

proof fn lemma_days_before_month_grows(y: int, m1: int, m2: int)
    requires
        1 <= m1 <= m2,
    ensures
        days_before_month(y, m1) <= days_before_month(y, m2),
        days_before_month(y, m1) >= 0,
    decreases m2 - m1 + m1,
{
    if m1 > 1 {
        lemma_days_before_month_grows(y, m1 - 1, m1 - 1);
    }
    if m1 < m2 {
        lemma_days_before_month_grows(y, m1, m2 - 1);
    }
}

proof fn lemma_days_before_year_grows(a: int, b: int)
    requires
        a < b,
    ensures
        days_before_year(a + 1) <= days_before_year(b),
        days_before_year(a) < days_before_year(a + 1),
    decreases b - a,
{
    lemma_year_length(a);
    lemma_days_before_month_grows(a, 1, 12);
    if a + 1 < b {
        lemma_days_before_year_grows(a + 1, b);
    }
}

proof fn lemma_date_within_year(y: int, m: int, d: int, n: int)
    requires
        is_civil_date(y, m, d, n),
    ensures
        days_before_year(y) < n <= days_before_year(y + 1),
        days_before_month(y, m) < n - days_before_year(y) <= days_before_month(y, m + 1),
{
    lemma_year_length(y);
    lemma_days_before_month_grows(y, 1, m);
    lemma_days_before_month_grows(y, m + 1, 13);
}

/// A day of the common era has only one proleptic Gregorian date, the one
/// `civil_date` picks.
pub proof fn lemma_civil_date_unique(y: int, m: int, d: int, n: int)
    requires
        is_civil_date(y, m, d, n),
    ensures
        civil_date(n) == (y, m, d),
{
    lemma_civil_date_exists(n);
    let (y2, m2, d2) = civil_date(n);
    lemma_date_within_year(y, m, d, n);
    lemma_date_within_year(y2, m2, d2, n);
    if y < y2 {
        lemma_days_before_year_grows(y, y2);
    } else if y2 < y {
        lemma_days_before_year_grows(y2, y);
    }
    assert(y == y2);
    if m < m2 {
        lemma_days_before_month_grows(y, m + 1, m2);
    } else if m2 < m {
        lemma_days_before_month_grows(y, m2 + 1, m);
    }
    assert(m == m2);
}

/// The format patterns this library uses.
pub open spec fn supported_pattern(p: Seq<char>) -> bool {
    ||| p == "%Y-%m-%d %a"@
    ||| p == "%H:%M"@
    ||| p == "%m-%d"@
    ||| p == "%Y%m%d"@
}

/// The local date of `ts_ms` at `offset_secs` as chrono's day count from the
/// common era (`TimeZone::timestamp_millis_opt`, `DateTime::date_naive`,
/// `Datelike::num_days_from_ce`). The contract states chrono's definition: the
/// floor of local milliseconds over a day, shifted so that 1970-01-01 is day
/// 719,163.
#[verifier::external_body]
pub(crate) fn local_day(ts_ms: i64, offset_secs: i32) -> (d: i32)
    requires
        in_calendar_range(ts_ms as int, offset_secs as int),
        valid_offset(offset_secs),
    ensures
        d == local_day_number(ts_ms as int, offset_secs as int),
{
    FixedOffset::east_opt(offset_secs).unwrap().timestamp_millis_opt(ts_ms).unwrap().date_naive()
        .num_days_from_ce()
}

/// The local day of the week of `ts_ms` at `offset_secs`, Monday being 0
/// (`Datelike::weekday`, `Weekday::num_days_from_monday`). The contract states
/// chrono's proleptic Gregorian week: 0001-01-01 (day 1) is a Monday.
#[verifier::external_body]
pub(crate) fn local_weekday(ts_ms: i64, offset_secs: i32) -> (w: u32)
    requires
        in_calendar_range(ts_ms as int, offset_secs as int),
        valid_offset(offset_secs),
    ensures
        w == weekday_of_day(local_day_number(ts_ms as int, offset_secs as int)),
{
    FixedOffset::east_opt(offset_secs).unwrap().timestamp_millis_opt(ts_ms).unwrap().weekday()
        .num_days_from_monday()
}

/// `ts_ms` at `offset_secs` written in the chrono format `pattern`
/// (`DateTime::format`). The contract states what chrono writes for the
/// patterns this library uses: `%H:%M` is the local hour and minute,
/// zero-padded to two digits each; `%Y`, `%m` and `%d` are the year, month and
/// day of the local proleptic Gregorian date (the year as `%Y` writes it, the
/// month and day as two digits each); `%a` is the local day's three-letter
/// English name.
#[verifier::external_body]
pub(crate) fn format_local(ts_ms: i64, offset_secs: i32, pattern: &str) -> (t: String)
    requires
        in_calendar_range(ts_ms as int, offset_secs as int),
        valid_offset(offset_secs),
        supported_pattern(pattern@),
    ensures
        pattern@ == "%H:%M"@ ==> t@ == clock_text(ts_ms as int, offset_secs as int),
        pattern@ == "%m-%d"@ ==> t@ == month_day_text(
            local_day_number(ts_ms as int, offset_secs as int),
        ),
        pattern@ == "%Y%m%d"@ ==> t@ == date_digits(
            local_day_number(ts_ms as int, offset_secs as int),
        ),
        pattern@ == "%Y-%m-%d %a"@ ==> t@ == date_text(
            local_day_number(ts_ms as int, offset_secs as int),
        ) + " "@ + weekday_abbrev(weekday_of_day(local_day_number(ts_ms as int, offset_secs as int))),
{
    FixedOffset::east_opt(offset_secs).unwrap().timestamp_millis_opt(ts_ms).unwrap().format(
        pattern,
    ).to_string()
}

/// The local calendar year of `ts_ms` at `offset_secs` (`Datelike::year`).
/// The contract states that it is the year of the local proleptic Gregorian
/// date, within chrono's range of years.
#[verifier::external_body]
pub(crate) fn local_year(ts_ms: i64, offset_secs: i32) -> (y: i32)
    requires
        in_calendar_range(ts_ms as int, offset_secs as int),
        valid_offset(offset_secs),
    ensures
        -262_143 <= y <= 262_142,
        y == civil_date(local_day_number(ts_ms as int, offset_secs as int)).0,
{
    FixedOffset::east_opt(offset_secs).unwrap().timestamp_millis_opt(ts_ms).unwrap().year()
}

} // verus!
