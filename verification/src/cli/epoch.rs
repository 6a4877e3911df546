//! Points in time as text.

use crate::number;
use vstd::prelude::*;
use vstd::string::*;

verus! {

// ---------------------------------------------------------------------------
// The calendar
// ---------------------------------------------------------------------------

/// The leap years.
pub open spec fn leap(y: int) -> bool {
    (y % 4 == 0 && y % 100 != 0) || y % 400 == 0
}

/// The number of days of a year.
pub open spec fn year_len(y: int) -> int {
    if leap(y) {
        366
    } else {
        365
    }
}

/// The number of days of a month, counted from 1.
pub open spec fn month_len(y: int, m: int) -> int {
    if m == 2 {
        if leap(y) {
            29
        } else {
            28
        }
    } else if m == 4 || m == 6 || m == 9 || m == 11 {
        30
    } else {
        31
    }
}

/// The number of days from the beginning of 1970 to that of year `y`.
pub open spec fn days_before_year(y: int) -> int
    decreases y - 1970,
{
    if y <= 1970 {
        0
    } else {
        days_before_year(y - 1) + year_len(y - 1)
    }
}

/// The number of days of year `y` before its month `m`.
pub open spec fn days_before_month(y: int, m: int) -> int
    decreases m,
{
    if m <= 1 {
        0
    } else {
        days_before_month(y, m - 1) + month_len(y, m - 1)
    }
}

/// The day `days` days after the first of January 1970 is that of year `y`,
/// month `m` and day of the month `d`.
pub open spec fn is_date(days: int, y: int, m: int, d: int) -> bool {
    &&& y >= 1970
    &&& 1 <= m <= 12
    &&& 1 <= d <= month_len(y, m)
    &&& days == days_before_year(y) + days_before_month(y, m) + d - 1
}

/// The months of a year make up the year.
proof fn lemma_months(y: int)
    ensures
        days_before_month(y, 13) == year_len(y),
{
    reveal_with_fuel(days_before_month, 13);
}

proof fn lemma_months_grow(y: int, m: int, n: int)
    requires
        1 <= m <= n,
    ensures
        m < n ==> days_before_month(y, m) + month_len(y, m) <= days_before_month(y, n),
        days_before_month(y, m) <= days_before_month(y, n),
    decreases n,
{
    if m < n {
        lemma_months_grow(y, m, n - 1);
    }
}

proof fn lemma_years_grow(y: int, z: int)
    requires
        1970 <= y <= z,
    ensures
        y < z ==> days_before_year(y) + year_len(y) <= days_before_year(z),
        days_before_year(y) <= days_before_year(z),
    decreases z,
{
    if y < z {
        lemma_years_grow(y, z - 1);
    }
}

/// A day has one date.
pub proof fn lemma_date_unique(days: int, y: int, m: int, d: int, y2: int, m2: int, d2: int)
    requires
        is_date(days, y, m, d),
        is_date(days, y2, m2, d2),
    ensures
        y == y2,
        m == m2,
        d == d2,
{
    lemma_months(y);
    lemma_months(y2);
    lemma_months_grow(y, m, 13);
    lemma_months_grow(y2, m2, 13);
    lemma_months_grow(y, 1, m);
    lemma_months_grow(y2, 1, m2);
    if y <= y2 {
        lemma_years_grow(y, y2);
    } else {
        lemma_years_grow(y2, y);
    }
    if m <= m2 {
        lemma_months_grow(y, m, m2);
    } else {
        lemma_months_grow(y, m2, m);
    }
}

/// Whether `y` is a leap year.
pub fn is_leap(y: u64) -> (r: bool)
    ensures
        r == leap(y as int),
{
    (y % 4 == 0 && y % 100 != 0) || y % 400 == 0
}

fn days_of_month(year: u64, month: u64) -> (n: u64)
    ensures
        n == month_len(year as int, month as int),
{
    if month == 2 {
        if is_leap(year) {
            29
        } else {
            28
        }
    } else if month == 4 || month == 6 || month == 9 || month == 11 {
        30
    } else {
        31
    }
}

/// The year, the month and the day of the month of a day.
fn date(total: u64) -> (r: (u64, u64, u64))
    requires
        total < u64::MAX - 1970,
    ensures
        is_date(total as int, r.0 as int, r.1 as int, r.2 as int),
{
    let mut days: u64 = total;
    let mut year: u64 = 1970;
    let mut len: u64 = 365;
    while days >= len
        invariant
            total < u64::MAX - 1970,
            1970 <= year,
            len == year_len(year as int),
            total == days_before_year(year as int) + days,
            year + days <= 1970 + total,
        decreases days,
    {
        days = days - len;
        year = year + 1;
        len = if is_leap(year) {
            366
        } else {
            365
        };
    }
    let ghost day_of_year = days as int;
    proof {
        lemma_months(year as int);
    }
    let mut month: u64 = 1;
    let mut in_month: u64 = days_of_month(year, 1);
    while days >= in_month
        invariant
            1 <= month <= 12,
            in_month == month_len(year as int, month as int),
            day_of_year == days_before_month(year as int, month as int) + days,
            day_of_year < days_before_month(year as int, 13),
        decreases days,
    {
        proof {
            lemma_months_grow(year as int, month as int, 13);
            if month == 12 {
                assert(days_before_month(year as int, 13) == days_before_month(year as int, 12)
                    + month_len(year as int, 12));
            }
        }
        days = days - in_month;
        month = month + 1;
        in_month = days_of_month(year, month);
    }
    (year, month, days + 1)
}

// ---------------------------------------------------------------------------
// Text
// ---------------------------------------------------------------------------

/// A number of at least two digits.
pub open spec fn two_digits(n: nat) -> Seq<char> {
    number::aligned_right(number::decimal(n), 2, '0')
}

/// A date and a time of day.
pub open spec fn time_text(y: int, m: int, d: int, second: int) -> Seq<char> {
    number::aligned_right(number::decimal(y as nat), 4, '0') + "-"@ + two_digits(m as nat) + "-"@
        + two_digits(d as nat) + " "@ + two_digits((second / 3600) as nat) + ":"@ + two_digits(
        ((second % 3600) / 60) as nat,
    ) + ":"@ + two_digits((second % 60) as nat) + " UTC"@
}

/// `s` is the date and the time of day of a point in time.
pub open spec fn is_utc(s: Seq<char>, epoch: int) -> bool {
    exists|y: int, m: int, d: int| #[trigger]
        is_date(epoch / 86400, y, m, d) && s == time_text(y, m, d, epoch % 86400)
}

/// Format a Unix epoch timestamp as a date and a time of day.
pub fn format_epoch(epoch: i64) -> (s: String)
    requires
        epoch >= 0,
    ensures
        is_utc(s@, epoch as int),
{
    let total = epoch as u64;
    let days = total / 86400;
    let second = total % 86400;
    let (year, month, day) = date(days);
    let mut s = String::new();
    number::push_zero_padded(&mut s, year, 4);
    assert(s@ =~= number::aligned_right(number::decimal(year as nat), 4, '0'));
    s.append("-");
    number::push_zero_padded(&mut s, month, 2);
    s.append("-");
    number::push_zero_padded(&mut s, day, 2);
    s.append(" ");
    number::push_zero_padded(&mut s, second / 3600, 2);
    s.append(":");
    number::push_zero_padded(&mut s, (second % 3600) / 60, 2);
    s.append(":");
    number::push_zero_padded(&mut s, second % 60, 2);
    s.append(" UTC");
    assert(s@ == time_text(year as int, month as int, day as int, second as int));
    assert(is_date(epoch as int / 86400, year as int, month as int, day as int));
    s
}

/// `s` is what is printed of a point in time: the date and the time of day, or
/// the number where it lies before 1970.
pub open spec fn is_time(s: Seq<char>, epoch: int) -> bool {
    if epoch < 0 {
        s == number::signed_decimal(epoch)
    } else {
        is_utc(s, epoch)
    }
}

/// A point in time has one text.
pub proof fn lemma_time_unique(s: Seq<char>, t: Seq<char>, epoch: int)
    requires
        is_time(s, epoch),
        is_time(t, epoch),
    ensures
        s == t,
{
    if epoch >= 0 {
        let days = epoch / 86400;
        let (y, m, d) = choose|y: int, m: int, d: int| #[trigger]
            is_date(days, y, m, d) && s == time_text(y, m, d, epoch % 86400);
        let (y2, m2, d2) = choose|y: int, m: int, d: int| #[trigger]
            is_date(days, y, m, d) && t == time_text(y, m, d, epoch % 86400);
        lemma_date_unique(days, y, m, d, y2, m2, d2);
    }
}

/// What is printed of a point in time.
pub open spec fn shown_time(epoch: int) -> Seq<char> {
    choose|s: Seq<char>| is_time(s, epoch)
}

/// Format a Unix epoch timestamp as a human-readable UTC string.
pub fn chrono_format(epoch: i64) -> (s: String)
    ensures
        is_time(s@, epoch as int),
        s@ == shown_time(epoch as int),
{
    let s = if epoch < 0 {
        number::signed_string(epoch)
    } else {
        format_epoch(epoch)
    };
    proof {
        lemma_time_unique(s@, shown_time(epoch as int), epoch as int);
    }
    s
}

} // verus!
