//! How long ago the project started (in years, months and days) and the
//! program was built (in minutes), in words.
use crate::decimal::{itoa_text, lemma_decimal_digits, spec_decimal};
use crate::text::{ascii_chars, is_ascii_bytes, string_from_ascii};
use chrono::Datelike as _;
use vstd::prelude::*;
use vstd::string::StringExecFns;

verus! {

/// The project's start, in seconds since the Unix epoch: 2024-12-23 01:30:48 UTC.
pub const EPOCH_SECS: i64 = 1734915448;

/// The longest duration, in nanoseconds: `u64::MAX` seconds and 999,999,999
/// nanoseconds.
pub const DURATION_MAX_NANOS: u128 = 18_446_744_073_709_551_615_999_999_999;

/// A duration of `now_ns` nanoseconds corrected by the clock offset
/// `delta_ns`: `None` where the result would fall below zero or above the
/// longest duration.
pub fn corrected_nanos(now_ns: u128, delta_ns: i64) -> (r: Option<u128>)
    requires
        now_ns <= DURATION_MAX_NANOS,
    ensures
        r == (if 0 <= now_ns + delta_ns <= DURATION_MAX_NANOS {
            Some((now_ns + delta_ns) as u128)
        } else {
            None
        }),
{
    if delta_ns < 0 {
        let back: u128 = (-(delta_ns as i128)) as u128;
        if back <= now_ns {
            Some(now_ns - back)
        } else {
            None
        }
    } else {
        let ahead: u128 = delta_ns as u128;
        if ahead <= DURATION_MAX_NANOS - now_ns {
            Some(now_ns + ahead)
        } else {
            None
        }
    }
}

// ---------------------------------------------------------------------------
// Words
// ---------------------------------------------------------------------------

/// `n word`, with an `s` when `n` is more than one.
pub open spec fn unit_text(word: Seq<char>, n: nat) -> Seq<char> {
    ascii_chars(spec_decimal(n)) + " "@ + word + if n > 1 {
        "s"@
    } else {
        Seq::<char>::empty()
    }
}

fn decimal_string(n: u64) -> (s: String)
    ensures
        s@ == ascii_chars(spec_decimal(n as nat)),
{
    let digits = itoa_text(n as u128);
    proof {
        lemma_decimal_digits(n as nat);
        assert forall|i: int| 0 <= i < digits@.len() implies #[trigger] digits@[i] < 128 by {
            assert(crate::decimal::is_digit(digits@[i]));
        }
    }
    string_from_ascii(digits)
}

fn push_unit(out: &mut String, word: &str, n: u64)
    ensures
        final(out)@ == old(out)@ + unit_text(word@, n as nat),
{
    let d = decimal_string(n);
    out.append(d.as_str());
    out.append(" ");
    out.append(word);
    if n > 1 {
        out.append("s");
    }
    proof {
        if n > 1 {
            assert(final(out)@ =~= old(out)@ + unit_text(word@, n as nat));
        } else {
            assert(final(out)@ =~= old(out)@ + unit_text(word@, n as nat));
        }
    }
}

// ---------------------------------------------------------------------------
// Build age
// ---------------------------------------------------------------------------

/// Time since the build, in whole minutes.
#[derive(Debug, Clone, Copy, PartialEq, Eq, Structural)]
pub struct BuildAge {
    pub minutes: u64,
}

/// The words for a build age.
pub open spec fn spec_build_age_text(m: nat) -> Seq<char> {
    if m == 0 {
        "just now"@
    } else if m < 60 {
        unit_text("minute"@, m)
    } else if m < 1440 {
        let h = m / 60;
        let r = m % 60;
        if r == 0 {
            unit_text("hour"@, h)
        } else {
            unit_text("hour"@, h) + " and "@ + unit_text("minute"@, r)
        }
    } else {
        let d = ((m / 1440) as u32) as nat;
        let h = (m % 1440) / 60;
        if h == 0 {
            unit_text("day"@, d)
        } else {
            unit_text("day"@, d) + " and "@ + unit_text("hour"@, h)
        }
    }
}

impl BuildAge {
    /// The age of a build made `elapsed_secs` seconds ago.
    pub fn since_build(elapsed_secs: u64) -> (r: BuildAge)
        ensures
            r.minutes == elapsed_secs / 60,
    {
        BuildAge { minutes: elapsed_secs / 60 }
    }

    /// `just now`, minutes, hours and minutes, or days and hours.
    pub fn to_string(&self) -> (s: String)
        ensures
            s@ == spec_build_age_text(self.minutes as nat),
    {
        let m = self.minutes;
        let mut s = String::new();
        if m == 0 {
            s.append("just now");
        } else if m < 60 {
            push_unit(&mut s, "minute", m);
        } else if m < 1440 {
            push_unit(&mut s, "hour", m / 60);
            if m % 60 != 0 {
                s.append(" and ");
                push_unit(&mut s, "minute", m % 60);
            }
        } else {
            let d = (m / 1440) as u32;
            push_unit(&mut s, "day", d as u64);
            let h = (m % 1440) / 60;
            if h != 0 {
                s.append(" and ");
                push_unit(&mut s, "hour", h);
            }
        }
        proof {
            reveal_strlit("");
            assert(s@ =~= spec_build_age_text(m as nat));
        }
        s
    }
}

// ---------------------------------------------------------------------------
// Project age
// ---------------------------------------------------------------------------

/// Time since the project started, in years, months and days of the calendar.
#[derive(Debug, Clone, Copy, PartialEq, Eq, Structural)]
pub struct ProjectAge {
    pub years: u32,
    pub months: u32,
    pub days: u32,
}

pub open spec fn is_leap_year(y: int) -> bool {
    (y % 4 == 0 && y % 100 != 0) || y % 400 == 0
}

/// The number of days of month `m` (1 to 12) of year `y`.
pub open spec fn days_in_month(y: int, m: int) -> int {
    if m == 2 {
        if is_leap_year(y) {
            29
        } else {
            28
        }
    } else if m == 4 || m == 6 || m == 9 || m == 11 {
        30
    } else {
        31
    }
}

/// The UTC calendar date (year, month, day) of a Unix timestamp.
pub uninterp spec fn utc_date(secs: i64) -> (i32, u32, u32);

/// The UTC date of a Unix timestamp, through `chrono::DateTime::from_timestamp`
/// and `Datelike`.
///
/// Trusted: the date depends on the timestamp alone; its month is 1 to 12
/// and its day a day of that month; within the bound (about 253,000 years
/// either side of 1970) the year lies within 260,000 of zero.  `chrono`
/// refuses timestamps beyond about 262,000 years (`None`), which the bound
/// excludes.
#[verifier::external_body]
fn utc_date_of(secs: i64) -> (r: Option<(i32, u32, u32)>)
    requires
        -8_000_000_000_000 <= secs <= 8_000_000_000_000,
    ensures
        r == Some(utc_date(secs)),
        -260_000 <= r.unwrap().0 <= 260_000,
        1 <= r.unwrap().1 <= 12,
        1 <= r.unwrap().2 <= days_in_month(r.unwrap().0 as int, r.unwrap().1 as int),
{
    match chrono::DateTime::from_timestamp(secs, 0) {
        Some(t) => Some((t.year(), t.month(), t.day())),
        None => None,
    }
}

/// The number of days of the month before month `m` of year `y`, through
/// `chrono::NaiveDate::from_ymd_opt(y, m, 1)` and `pred_opt`.
///
/// Trusted: the day before the first of a month is the last day of the
/// month before, in the proleptic Gregorian calendar; `chrono` refuses
/// (`None`) only dates beyond about 262,000 years, which the bound excludes.
#[verifier::external_body]
fn days_of_previous_month(y: i32, m: u32) -> (r: Option<u32>)
    requires
        1 <= m <= 12,
        -260_000 <= y <= 260_000,
    ensures
        r == Some(
            (if m == 1 {
                days_in_month(y - 1, 12)
            } else {
                days_in_month(y as int, m - 1)
            }) as u32,
        ),
{
    match chrono::NaiveDate::from_ymd_opt(y, m, 1) {
        Some(first) => match first.pred_opt() {
            Some(last) => Some(last.day()),
            None => None,
        },
        None => None,
    }
}

/// The calendar difference from 2024-12-23 to `(y, m, d)`, with the day of
/// the month before `m` counted as `prev_days` when the days borrow.
pub open spec fn spec_project_age(y: int, m: int, d: int, prev_days: int) -> (int, int, int) {
    let years0 = y - 2024;
    let months0 = m - 12;
    let days0 = d - 23;
    let (months1, days1) = if days0 < 0 {
        (months0 - 1, days0 + prev_days)
    } else {
        (months0, days0)
    };
    if months1 < 0 {
        (years0 - 1, months1 + 12, days1)
    } else {
        (years0, months1, days1)
    }
}

/// The words for a project age.
pub open spec fn spec_project_age_text(y: nat, m: nat, d: nat) -> Seq<char> {
    if y == 0 && m == 0 && d == 0 {
        "less than 1 day"@
    } else if y == 0 && m == 0 {
        unit_text("day"@, d)
    } else if y == 0 && d == 0 {
        unit_text("month"@, m)
    } else if y == 0 {
        unit_text("month"@, m) + " and "@ + unit_text("day"@, d)
    } else if m == 0 && d == 0 {
        unit_text("year"@, y)
    } else if m == 0 {
        unit_text("year"@, y) + " and "@ + unit_text("day"@, d)
    } else if d == 0 {
        unit_text("year"@, y) + " and "@ + unit_text("month"@, m)
    } else {
        unit_text("year"@, y) + ", "@ + unit_text("month"@, m) + ", and "@ + unit_text("day"@, d)
    }
}

impl ProjectAge {
    /// The age on the date `(year, month, day)`; `prev_month_days` is the
    /// number of days of the month before `month`.  Each part is kept as a
    /// `u32`, as dates before the start do not occur.
    pub fn from_date(year: i32, month: u32, day: u32, prev_month_days: u32) -> (r: ProjectAge)
        requires
            1 <= month <= 12,
            1 <= day <= 31,
            28 <= prev_month_days <= 31,
        ensures
            ({
                let (y, m, d) = spec_project_age(
                    year as int,
                    month as int,
                    day as int,
                    prev_month_days as int,
                );
                r.years == y as u32 && r.months == m as u32 && r.days == d as u32
            }),
    {
        let mut years: i64 = year as i64 - 2024;
        let mut months: i64 = month as i64 - 12;
        let mut days: i64 = day as i64 - 23;
        if days < 0 {
            months = months - 1;
            days = days + prev_month_days as i64;
        }
        if months < 0 {
            years = years - 1;
            months = months + 12;
        }
        ProjectAge { years: years as u32, months: months as u32, days: days as u32 }
    }

    /// The age `elapsed_secs` seconds after the start.
    pub fn since_epoch(elapsed_secs: u64) -> (r: ProjectAge)
        requires
            elapsed_secs <= 7_000_000_000_000,
        ensures
            ({
                let (y, m, d) = utc_date((EPOCH_SECS + elapsed_secs) as i64);
                let prev = if m == 1 {
                    days_in_month(y - 1, 12)
                } else {
                    days_in_month(y as int, m - 1)
                };
                let (ay, am, ad) = spec_project_age(y as int, m as int, d as int, prev);
                r.years == ay as u32 && r.months == am as u32 && r.days == ad as u32
            }),
    {
        let secs = EPOCH_SECS + elapsed_secs as i64;
        match utc_date_of(secs) {
            Some((y, m, d)) => match days_of_previous_month(y, m) {
                Some(prev) => Self::from_date(y, m, d, prev),
                None => {
                    proof {
                        assert(false);
                    }
                    ProjectAge { years: 0, months: 0, days: 0 }
                },
            },
            None => {
                proof {
                    assert(false);
                }
                ProjectAge { years: 0, months: 0, days: 0 }
            },
        }
    }

    /// `less than 1 day`, or the years, months and days that are not zero.
    pub fn to_string(&self) -> (s: String)
        ensures
            s@ == spec_project_age_text(self.years as nat, self.months as nat, self.days as nat),
    {
        let (y, m, d) = (self.years as u64, self.months as u64, self.days as u64);
        let mut s = String::new();
        if y == 0 && m == 0 && d == 0 {
            s.append("less than 1 day");
        } else if y == 0 && m == 0 {
            push_unit(&mut s, "day", d);
        } else if y == 0 && d == 0 {
            push_unit(&mut s, "month", m);
        } else if y == 0 {
            push_unit(&mut s, "month", m);
            s.append(" and ");
            push_unit(&mut s, "day", d);
        } else if m == 0 && d == 0 {
            push_unit(&mut s, "year", y);
        } else if m == 0 {
            push_unit(&mut s, "year", y);
            s.append(" and ");
            push_unit(&mut s, "day", d);
        } else if d == 0 {
            push_unit(&mut s, "year", y);
            s.append(" and ");
            push_unit(&mut s, "month", m);
        } else {
            push_unit(&mut s, "year", y);
            s.append(", ");
            push_unit(&mut s, "month", m);
            s.append(", and ");
            push_unit(&mut s, "day", d);
        }
        proof {
            reveal_strlit("");
            assert(s@ =~= spec_project_age_text(y as nat, m as nat, d as nat));
        }
        s
    }
}

} // verus!
