use chrono::Datelike;
use chrono::Timelike;
use vstd::prelude::*;

verus! {

/// A calendar date held as year, month (1 to 12) and day of the month (1 to 31).
#[derive(Debug, Clone, Copy, PartialEq, Eq, Structural)]
pub struct Date {
    pub year: i32,
    pub month: u32,
    pub day: u32,
}

/// A date together with the time of day, to the minute.
#[derive(Debug, Clone, Copy, PartialEq, Eq, Structural)]
pub struct DateTime {
    pub date: Date,
    pub hour: u32,
    pub minute: u32,
}

/// Granularity to which a date is aligned. `Unrounded` leaves positions as they are.
#[derive(Debug, Clone, Copy, PartialEq, Eq, Structural)]
pub enum Roundness {
    Unrounded,
    Day,
    Week,
    Month,
}

impl Date {
    pub open spec fn wf(self) -> bool {
        1 <= self.month <= 12 && 1 <= self.day <= 31
    }
}

impl DateTime {
    pub open spec fn wf(self) -> bool {
        self.date.wf() && self.hour < 24 && self.minute < 60
    }
}

/// Chronological order on dates: by year, then month, then day.
pub open spec fn date_le(a: Date, b: Date) -> bool {
    a.year < b.year || (a.year == b.year && (a.month < b.month || (a.month == b.month
        && a.day <= b.day)))
}

/// The start of the period of granularity `g` that holds `d`. Weeks are counted
/// from the first of the month: days 1, 8, 15, 22 and 29 start one.
pub open spec fn rounded(d: Date, g: Roundness) -> Date {
    match g {
        Roundness::Month => Date { day: 1, ..d },
        Roundness::Week => Date { day: ((d.day - 1) / 7 * 7 + 1) as u32, ..d },
        _ => d,
    }
}

/// Whether `a` is on or before `b`.
pub fn date_on_or_before(a: &Date, b: &Date) -> (r: bool)
    ensures
        r == date_le(*a, *b),
{
    a.year < b.year || (a.year == b.year && (a.month < b.month || (a.month == b.month && a.day
        <= b.day)))
}

/// Rounds `date` down to the start of its period of granularity `roundness`.
pub fn round_date(date: Date, roundness: Roundness) -> (r: Date)
    requires
        date.wf(),
    ensures
        r == rounded(date, roundness),
        r.wf(),
        roundness == Roundness::Month ==> r.day == 1,
        roundness == Roundness::Day ==> r == date,
        date_le(r, date),
{
    match roundness {
        Roundness::Unrounded => date,
        Roundness::Day => date,
        Roundness::Week => {
            let fake_weekstart: u32 = (date.day - 1) / 7 * 7 + 1;
            Date { day: fake_weekstart, ..date }
        },
        Roundness::Month => Date { day: 1, ..date },
    }
}

/// Rounding a date that already starts a period of the same granularity keeps it.
pub proof fn lemma_round_date_idempotent(d: Date, g: Roundness)
    requires
        d.wf(),
    ensures
        rounded(rounded(d, g), g) == rounded(d, g),
{
    if g == Roundness::Week {
        let k = (d.day - 1) / 7;
        assert((k * 7) / 7 == k) by (nonlinear_arith);
    }
}

/// The date `n` days after `d`, or none where chrono cannot represent it.
pub uninterp spec fn days_later(d: Date, n: int) -> Option<Date>;

/// The date `n` days before `d`, or none where chrono cannot represent it.
pub uninterp spec fn days_earlier(d: Date, n: int) -> Option<Date>;

/// The date `n` calendar months after `d`, or none where chrono cannot represent it.
pub uninterp spec fn months_later(d: Date, n: int) -> Option<Date>;

/// The number of whole days from `earlier` to `later`, or none where either is no date.
pub uninterp spec fn days_between(later: Date, earlier: Date) -> Option<int>;

/// The date and time that `text` holds in the layout `fmt`, if it holds one.
pub uninterp spec fn parsed_datetime(text: Seq<char>, fmt: Seq<char>) -> Option<DateTime>;

/// Relies on chrono's `NaiveDate::checked_add_days`: the date `n` days later, or none
/// out of range; chrono's `month()` and `day()` lie in 1..=12 and 1..=31.
#[verifier::external_body]
pub(crate) fn add_days(d: Date, n: u64) -> (r: Option<Date>)
    ensures
        r == days_later(d, n as int),
        r matches Some(x) ==> x.wf(),
{
    let nd = chrono::NaiveDate::from_ymd_opt(d.year, d.month, d.day)?;
    let x = nd.checked_add_days(chrono::Days::new(n))?;
    Some(Date { year: x.year(), month: x.month(), day: x.day() })
}

/// Relies on chrono's `NaiveDate::checked_sub_days`: the date `n` days earlier, or none
/// out of range.
#[verifier::external_body]
pub(crate) fn sub_days(d: Date, n: u64) -> (r: Option<Date>)
    ensures
        r == days_earlier(d, n as int),
        r matches Some(x) ==> x.wf(),
{
    let nd = chrono::NaiveDate::from_ymd_opt(d.year, d.month, d.day)?;
    let x = nd.checked_sub_days(chrono::Days::new(n))?;
    Some(Date { year: x.year(), month: x.month(), day: x.day() })
}

/// Relies on chrono's `NaiveDate::checked_add_months`: the date `n` months later, on
/// the same day where that month has it, or none out of range.
#[verifier::external_body]
pub(crate) fn add_months(d: Date, n: u32) -> (r: Option<Date>)
    ensures
        r == months_later(d, n as int),
        r matches Some(x) ==> x.wf(),
{
    let nd = chrono::NaiveDate::from_ymd_opt(d.year, d.month, d.day)?;
    let x = nd.checked_add_months(chrono::Months::new(n))?;
    Some(Date { year: x.year(), month: x.month(), day: x.day() })
}

/// Relies on chrono's `NaiveDate::signed_duration_since` and `TimeDelta::num_days`:
/// the whole days from `earlier` to `later`.
#[verifier::external_body]
pub(crate) fn day_count_between(later: Date, earlier: Date) -> (r: Option<i64>)
    ensures
        r matches Some(x) ==> days_between(later, earlier) == Some(x as int),
        r is None ==> days_between(later, earlier) is None,
{
    let a = chrono::NaiveDate::from_ymd_opt(later.year, later.month, later.day)?;
    let b = chrono::NaiveDate::from_ymd_opt(earlier.year, earlier.month, earlier.day)?;
    Some(a.signed_duration_since(b).num_days())
}

/// Relies on chrono's `NaiveDateTime::parse_from_str`: the date and time that `text`
/// holds in the layout `fmt`; chrono's fields lie in their usual ranges.
#[verifier::external_body]
pub(crate) fn parse_datetime(text: &str, fmt: &str) -> (r: Option<DateTime>)
    ensures
        r == parsed_datetime(text@, fmt@),
        r matches Some(x) ==> x.wf(),
{
    let x = chrono::NaiveDateTime::parse_from_str(text, fmt).ok()?;
    let date = Date { year: x.year(), month: x.month(), day: x.day() };
    Some(DateTime { date, hour: x.hour(), minute: x.minute() })
}

/// Relies on chrono's `Utc::now`: today's date in UTC, which differs from call to call.
#[verifier::external_body]
pub(crate) fn today_utc() -> (r: Date)
    ensures
        r.wf(),
{
    let x = chrono::Utc::now().date_naive();
    Date { year: x.year(), month: x.month(), day: x.day() }
}

} // verus!
