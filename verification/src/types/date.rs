//! Calendar dates and timestamps, as plain values.

use chrono::Datelike;
use chrono::NaiveDate;
use chrono::NaiveDateTime;
use chrono::Timelike;
use vstd::prelude::*;

use crate::text::append_chars;
use crate::text::decimal;
use crate::text::decimal_chars;
use crate::text::string_from_chars;

verus! {

/// Is `y` a leap year of the proleptic Gregorian calendar?
pub open spec fn is_leap(y: int) -> bool {
    y % 4 == 0 && (y % 100 != 0 || y % 400 == 0)
}

/// The number of days of month `m` of year `y`.
pub open spec fn days_in_month(y: int, m: int) -> int {
    if m == 2 {
        if is_leap(y) {
            29
        } else {
            28
        }
    } else if m == 4 || m == 6 || m == 9 || m == 11 {
        30
    } else {
        31
    }
}

/// Is `(y, m, d)` a day of the calendar?
pub open spec fn valid_date(y: int, m: int, d: int) -> bool {
    1 <= m <= 12 && 1 <= d <= days_in_month(y, m)
}

/// `s` padded with leading zeros to `w` characters.
pub open spec fn zero_pad(s: Seq<char>, w: nat) -> Seq<char> {
    if s.len() < w {
        Seq::new((w - s.len()) as nat, |i: int| '0') + s
    } else {
        s
    }
}

/// The year as `%Y` writes it: four digits at least, with a sign outside
/// `0..=9999`.
pub open spec fn year_text(y: int) -> Seq<char> {
    if 0 <= y <= 9999 {
        zero_pad(decimal(y as nat), 4)
    } else if y < 0 {
        seq!['-'] + zero_pad(decimal((-y) as nat), 4)
    } else {
        seq!['+'] + zero_pad(decimal(y as nat), 4)
    }
}

/// A date as `%Y-%m-%d` writes it.
pub open spec fn date_text(y: int, m: nat, d: nat) -> Seq<char> {
    year_text(y) + seq!['-'] + zero_pad(decimal(m), 2) + seq!['-'] + zero_pad(decimal(d), 2)
}

/// Is `(y1, m1, d1)` on or before `(y2, m2, d2)`?
pub open spec fn date_le(a: (int, int, int), b: (int, int, int)) -> bool {
    a.0 < b.0 || (a.0 == b.0 && (a.1 < b.1 || (a.1 == b.1 && a.2 <= b.2)))
}

/// The date chrono's `NaiveDate::parse_from_str` reads from `s` with the
/// format `%Y-%m-%d`, as year, month and day.
pub uninterp spec fn parsed_date(s: Seq<char>) -> Option<(int, int, int)>;

/// The timestamp chrono's `NaiveDateTime::parse_from_str` reads from `s`
/// with the format `%Y-%m-%dT%H:%M:%S`, as year, month, day, hour, minute,
/// second and nanosecond (a leap second is second 59 with a nanosecond of
/// at least 1_000_000_000).
pub uninterp spec fn parsed_timestamp(s: Seq<char>) -> Option<(int, int, int, int, int, int, int)>;

/// `n` written in decimal, padded with zeros to `w` characters.
pub fn padded_decimal(n: u64, w: usize) -> (r: Vec<char>)
    ensures
        r@ == zero_pad(decimal(n as nat), w as nat),
{
    let digits = decimal_chars(n);
    if digits.len() >= w {
        return digits;
    }
    let mut out: Vec<char> = Vec::new();
    let k = w - digits.len();
    let mut i: usize = 0;
    while i < k
        invariant
            i <= k,
            out@ == Seq::new(i as nat, |j: int| '0'),
        decreases k - i,
    {
        out.push('0');
        i = i + 1;
        assert(out@ =~= Seq::new(i as nat, |j: int| '0'));
    }
    append_chars(&mut out, digits.as_slice());
    out
}

/// A calendar date.
#[derive(Clone, Copy, PartialEq, Eq, Structural, PartialOrd, Ord, Hash, Debug)]
pub struct Date {
    year: i32,
    month: u32,
    day: u32,
}

impl View for Date {
    type V = (int, int, int);

    closed spec fn view(&self) -> (int, int, int) {
        (self.year as int, self.month as int, self.day as int)
    }
}

impl Date {
    /// Every date is a day of the calendar.
    pub closed spec fn wf(&self) -> bool {
        valid_date(self.year as int, self.month as int, self.day as int)
    }

    /// The date of `year`, `month`, `day`; `None` when there is no such day.
    pub fn from_ymd(year: i32, month: u32, day: u32) -> (r: Option<Date>)
        ensures
            match r {
                Some(d) => d@ == (year as int, month as int, day as int) && d.wf(),
                None => !valid_date(year as int, month as int, day as int),
            },
    {
        if month < 1 || month > 12 || day < 1 {
            return None;
        }
        let leap = year % 4 == 0 && (year % 100 != 0 || year % 400 == 0);
        let days: u32 = if month == 2 {
            if leap {
                29
            } else {
                28
            }
        } else if month == 4 || month == 6 || month == 9 || month == 11 {
            30
        } else {
            31
        };
        assert(leap == is_leap(year as int));
        if day > days {
            return None;
        }
        Some(Date { year, month, day })
    }

    /// The year.
    pub fn year(&self) -> (r: i32)
        ensures
            r as int == self@.0,
    {
        self.year
    }

    /// The month, from 1.
    pub fn month(&self) -> (r: u32)
        ensures
            r as int == self@.1,
    {
        self.month
    }

    /// The day of the month, from 1.
    pub fn day(&self) -> (r: u32)
        ensures
            r as int == self@.2,
    {
        self.day
    }

    /// Is this date on or before `other`?
    pub fn le(&self, other: &Date) -> (r: bool)
        ensures
            r == date_le(self@, other@),
    {
        self.year < other.year || (self.year == other.year && (self.month < other.month || (
        self.month == other.month && self.day <= other.day)))
    }

    /// The earlier of this date and `other`.
    pub fn min(self, other: Date) -> (r: Date)
        ensures
            r == (if date_le(self@, other@) {
                self
            } else {
                other
            }),
    {
        if self.le(&other) {
            self
        } else {
            other
        }
    }

    /// The date written `YYYY-MM-DD` (`%Y-%m-%d`).
    pub fn to_string(&self) -> (r: String)
        ensures
            r@ == date_text(self@.0, self@.1 as nat, self@.2 as nat),
    {
        let y = self.year as i64;
        let mut out: Vec<char> = Vec::new();
        if y < 0 {
            out.push('-');
        } else if y > 9999 {
            out.push('+');
        }
        let a: u64 = if y < 0 {
            (-y) as u64
        } else {
            y as u64
        };
        let yd = padded_decimal(a, 4);
        append_chars(&mut out, yd.as_slice());
        let ghost ytext = out@;
        assert(ytext =~= year_text(self@.0));
        out.push('-');
        let md = padded_decimal(self.month as u64, 2);
        append_chars(&mut out, md.as_slice());
        out.push('-');
        let dd = padded_decimal(self.day as u64, 2);
        append_chars(&mut out, dd.as_slice());
        assert(out@ =~= date_text(self@.0, self@.1 as nat, self@.2 as nat));
        string_from_chars(out.as_slice())
    }

    /// The date written in `s` as `YYYY-MM-DD`, as chrono reads it; `None`
    /// when chrono reads none.
    pub fn parse(s: &str) -> (r: Option<Date>)
        ensures
            match parsed_date(s@) {
                Some(t) => r matches Some(d) && d@ == t && d.wf(),
                None => r is None,
            },
    {
        match parse_ymd(s) {
            Some((y, m, d)) => Date::from_ymd(y, m, d),
            None => None,
        }
    }
}

/// chrono's `NaiveDate::parse_from_str` with the format `%Y-%m-%d`: the
/// year, month and day read from `s`. The contract names the result, and
/// says what chrono's `NaiveDate` guarantees of any date: it is a day of the
/// calendar.
#[verifier::external_body]
fn parse_ymd(s: &str) -> (r: Option<(i32, u32, u32)>)
    ensures
        match r {
            Some((y, m, d)) => parsed_date(s@) == Some((y as int, m as int, d as int)) && valid_date(
                y as int,
                m as int,
                d as int,
            ),
            None => parsed_date(s@) is None,
        },
{
    match NaiveDate::parse_from_str(s, "%Y-%m-%d") {
        Ok(d) => Some((d.year(), d.month(), d.day())),
        Err(_) => None,
    }
}

/// The zero-padded two-digit text of `n`.
pub open spec fn two_digits(n: nat) -> Seq<char> {
    zero_pad(decimal(n), 2)
}

/// A timestamp without a time zone.
#[derive(Clone, Copy, PartialEq, Eq, Structural, Debug)]
pub struct Timestamp {
    date: Date,
    hour: u32,
    minute: u32,
    second: u32,
}

impl Timestamp {
    /// The date of the timestamp.
    pub closed spec fn date_view(&self) -> Date {
        self.date
    }

    /// The hour, minute and second.
    pub closed spec fn time_view(&self) -> (int, int, int) {
        (self.hour as int, self.minute as int, self.second as int)
    }

    /// The timestamp at the given time of `date` (to the second, second 60
    /// being a leap second); `None` for a time of day that is not one.
    pub fn new(date: Date, hour: u32, minute: u32, second: u32) -> (r: Option<Timestamp>)
        ensures
            match r {
                Some(t) => t.date_view() == date && t.time_view() == (hour as int, minute as int, second as int),
                None => !(hour < 24 && minute < 60 && second <= 60),
            },
    {
        if hour < 24 && minute < 60 && second <= 60 {
            Some(Timestamp { date, hour, minute, second })
        } else {
            None
        }
    }

    /// The date component of this timestamp.
    pub fn date(&self) -> (r: Date)
        ensures
            r == self.date_view(),
    {
        self.date
    }

    /// The hour, minute and second.
    pub fn hms(&self) -> (r: (u32, u32, u32))
        ensures
            (r.0 as int, r.1 as int, r.2 as int) == self.time_view(),
    {
        (self.hour, self.minute, self.second)
    }

    /// The timestamp written `YYYY-MM-DDTHH:MM:SS` (`%Y-%m-%dT%H:%M:%S`).
    pub fn to_string(&self) -> (r: String)
        ensures
            r@ == date_text(self.date_view()@.0, self.date_view()@.1 as nat, self.date_view()@.2 as nat)
                + seq!['T'] + two_digits(self.time_view().0 as nat) + seq![':'] + two_digits(
                self.time_view().1 as nat,
            ) + seq![':'] + two_digits(self.time_view().2 as nat),
    {
        let d = self.date.to_string();
        let mut out = crate::text::chars_of(d.as_str());
        out.push('T');
        let h = padded_decimal(self.hour as u64, 2);
        append_chars(&mut out, h.as_slice());
        out.push(':');
        let m = padded_decimal(self.minute as u64, 2);
        append_chars(&mut out, m.as_slice());
        out.push(':');
        let s = padded_decimal(self.second as u64, 2);
        append_chars(&mut out, s.as_slice());
        string_from_chars(out.as_slice())
    }

    /// The timestamp written in `s` as `YYYY-MM-DDTHH:MM:SS`, as chrono
    /// reads it (a leap second as second 60); `None` when chrono reads none.
    pub fn parse(s: &str) -> (r: Option<Timestamp>)
        ensures
            match parsed_timestamp(s@) {
                Some(t) => r matches Some(ts) && ts.date_view()@ == (t.0, t.1, t.2) && ts.time_view() == (
                    t.3,
                    t.4,
                    t.5 + if t.6 >= 1_000_000_000 {
                        1int
                    } else {
                        0int
                    },
                ),
                None => r is None,
            },
    {
        match parse_ymd_hms(s) {
            Some((y, mo, d, h, mi, se, nano)) => match Date::from_ymd(y, mo, d) {
                Some(date) => {
                    let second = if nano >= 1_000_000_000 {
                        se + 1
                    } else {
                        se
                    };
                    Timestamp::new(date, h, mi, second)
                },
                None => None,
            },
            None => None,
        }
    }
}

/// chrono's `NaiveDateTime::parse_from_str` with the format
/// `%Y-%m-%dT%H:%M:%S`: the fields read from `s`. The contract names the
/// result, and says what chrono's `NaiveDateTime` guarantees of any value:
/// a day of the calendar and a time of day, where a nanosecond of at least
/// 1_000_000_000 (a leap second) comes only with second 59.
#[verifier::external_body]
fn parse_ymd_hms(s: &str) -> (r: Option<(i32, u32, u32, u32, u32, u32, u32)>)
    ensures
        match r {
            Some((y, mo, d, h, mi, se, nano)) => parsed_timestamp(s@) == Some(
                (y as int, mo as int, d as int, h as int, mi as int, se as int, nano as int),
            ) && valid_date(y as int, mo as int, d as int) && h < 24 && mi < 60 && se < 60 && nano
                < 2_000_000_000 && (nano >= 1_000_000_000 ==> se == 59),
            None => parsed_timestamp(s@) is None,
        },
{
    match NaiveDateTime::parse_from_str(s, "%Y-%m-%dT%H:%M:%S") {
        Ok(t) => Some((t.year(), t.month(), t.day(), t.hour(), t.minute(), t.second(), t.nanosecond())),
        Err(_) => None,
    }
}

} // verus!
