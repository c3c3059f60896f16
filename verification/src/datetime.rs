//! A calendar date and wall-clock time without a time zone, as stored in
//! the `DeletionDate` line of a `.trashinfo` file.
use chrono::{Datelike, Timelike};
use std::str::FromStr;
use vstd::prelude::*;

verus! {

/// The smallest year a date can have.
pub const MIN_YEAR: i32 = -262143i32;

/// The largest year a date can have.
pub const MAX_YEAR: i32 = 262142i32;

/// Whether `year` is a leap year of the proleptic Gregorian calendar.
pub open spec fn is_leap_year(year: int) -> bool {
    year % 4 == 0 && (year % 100 != 0 || year % 400 == 0)
}

/// The number of days of `month` (1 to 12) in `year`.
pub open spec fn days_in_month(year: int, month: int) -> int {
    if month == 2 {
        if is_leap_year(year) {
            29
        } else {
            28
        }
    } else if month == 4 || month == 6 || month == 9 || month == 11 {
        30
    } else {
        31
    }
}

/// The fields `(year, month, day, hour, minute, second, nanosecond)` name an
/// existing date and time. The nanosecond may reach into a second second
/// only at second 59: that is how a leap second is written.
pub open spec fn fields_valid(f: (i32, u32, u32, u32, u32, u32, u32)) -> bool {
    &&& MIN_YEAR <= f.0 <= MAX_YEAR
    &&& 1 <= f.1 <= 12
    &&& 1 <= f.2 <= days_in_month(f.0 as int, f.1 as int)
    &&& f.3 < 24
    &&& f.4 < 60
    &&& f.5 < 60
    &&& f.6 < 2_000_000_000
    &&& (f.6 >= 1_000_000_000 ==> f.5 == 59)
}

/// A date and time of day, without a time zone.
#[derive(Debug, Clone, Copy, PartialEq, Eq, Hash)]
pub struct LocalDateTime {
    year: i32,
    month: u32,
    day: u32,
    hour: u32,
    minute: u32,
    second: u32,
    nanosecond: u32,
}

impl LocalDateTime {
    /// The fields name an existing date and time; every value keeps this.
    #[verifier::type_invariant]
    pub open spec fn inv(self) -> bool {
        fields_valid(self.fields())
    }

    /// The fields of this value, in the order year, month, day, hour, minute,
    /// second, nanosecond.
    pub closed spec fn fields(self) -> (i32, u32, u32, u32, u32, u32, u32) {
        (self.year, self.month, self.day, self.hour, self.minute, self.second, self.nanosecond)
    }

    /// The value with the given fields, where they name an existing date and time.
    pub fn new(
        year: i32,
        month: u32,
        day: u32,
        hour: u32,
        minute: u32,
        second: u32,
        nanosecond: u32,
    ) -> (r: Option<Self>)
        ensures
            r is Some <==> fields_valid((year, month, day, hour, minute, second, nanosecond)),
            r matches Some(v) ==> v.fields() == (year, month, day, hour, minute, second, nanosecond),
    {
        if year < MIN_YEAR || year > MAX_YEAR || month < 1 || month > 12 || hour >= 24 || minute
            >= 60 || second >= 60 || nanosecond >= 2_000_000_000 || (nanosecond >= 1_000_000_000
            && second != 59) {
            return None;
        }
        let leap = year % 4 == 0 && (year % 100 != 0 || year % 400 == 0);
        let dim: u32 = if month == 2 {
            if leap {
                29
            } else {
                28
            }
        } else if month == 4 || month == 6 || month == 9 || month == 11 {
            30
        } else {
            31
        };
        if day < 1 || day > dim {
            return None;
        }
        Some(LocalDateTime { year, month, day, hour, minute, second, nanosecond })
    }

    /// Builds the value from fields known to be valid.
    pub fn from_fields(f: (i32, u32, u32, u32, u32, u32, u32)) -> (r: Self)
        requires
            fields_valid(f),
        ensures
            r.fields() == f,
    {
        LocalDateTime {
            year: f.0,
            month: f.1,
            day: f.2,
            hour: f.3,
            minute: f.4,
            second: f.5,
            nanosecond: f.6,
        }
    }

    pub fn year(&self) -> (r: i32)
        ensures
            r == self.fields().0,
    {
        self.year
    }

    pub fn month(&self) -> (r: u32)
        ensures
            r == self.fields().1,
    {
        self.month
    }

    pub fn day(&self) -> (r: u32)
        ensures
            r == self.fields().2,
    {
        self.day
    }

    pub fn hour(&self) -> (r: u32)
        ensures
            r == self.fields().3,
    {
        self.hour
    }

    pub fn minute(&self) -> (r: u32)
        ensures
            r == self.fields().4,
    {
        self.minute
    }

    pub fn second(&self) -> (r: u32)
        ensures
            r == self.fields().5,
    {
        self.second
    }

    pub fn nanosecond(&self) -> (r: u32)
        ensures
            r == self.fields().6,
    {
        self.nanosecond
    }

    /// The same moment with the fraction of the second dropped (a leap
    /// second keeps its extra second).
    pub open spec fn whole_seconds(self) -> (i32, u32, u32, u32, u32, u32, u32) {
        let f = self.fields();
        (f.0, f.1, f.2, f.3, f.4, f.5, if f.6 >= 1_000_000_000 {
            1_000_000_000
        } else {
            0
        })
    }

    /// Chronological order: `self` lies strictly before `other`.
    pub open spec fn spec_before(self, other: Self) -> bool {
        fields_before(self.fields(), other.fields())
    }

    /// Whether `self` lies strictly before `other`.
    pub fn before(&self, other: &Self) -> (r: bool)
        ensures
            r == self.spec_before(*other),
    {
        if self.year != other.year {
            return self.year < other.year;
        }
        if self.month != other.month {
            return self.month < other.month;
        }
        if self.day != other.day {
            return self.day < other.day;
        }
        if self.hour != other.hour {
            return self.hour < other.hour;
        }
        if self.minute != other.minute {
            return self.minute < other.minute;
        }
        if self.second != other.second {
            return self.second < other.second;
        }
        self.nanosecond < other.nanosecond
    }
}

/// Lexicographic order of the fields, which for valid values is the
/// chronological order.
pub open spec fn fields_before(
    a: (i32, u32, u32, u32, u32, u32, u32),
    b: (i32, u32, u32, u32, u32, u32, u32),
) -> bool {
    if a.0 != b.0 {
        a.0 < b.0
    } else if a.1 != b.1 {
        a.1 < b.1
    } else if a.2 != b.2 {
        a.2 < b.2
    } else if a.3 != b.3 {
        a.3 < b.3
    } else if a.4 != b.4 {
        a.4 < b.4
    } else if a.5 != b.5 {
        a.5 < b.5
    } else {
        a.6 < b.6
    }
}

/// The chronological order is a strict total order.
pub proof fn lemma_before_strict_total(a: LocalDateTime, b: LocalDateTime, c: LocalDateTime)
    ensures
        !a.spec_before(a),
        a.spec_before(b) && b.spec_before(c) ==> a.spec_before(c),
        a.fields() != b.fields() ==> (a.spec_before(b) || b.spec_before(a)),
        a.spec_before(b) ==> !b.spec_before(a),
{
}

/// `before` is chronological: the first of year, month, day, hour, minute,
/// second and nanosecond in which two values differ decides, whatever the
/// later fields hold; an earlier hour on the same day is before, whatever
/// the minutes. Equal values are not before each other.
pub proof fn lemma_before_chronological(a: LocalDateTime, b: LocalDateTime)
    ensures
        a.fields().0 < b.fields().0 ==> a.spec_before(b),
        a.fields().0 == b.fields().0 && a.fields().1 < b.fields().1 ==> a.spec_before(b),
        a.fields().0 == b.fields().0 && a.fields().1 == b.fields().1 && a.fields().2
            < b.fields().2 ==> a.spec_before(b),
        a.fields().0 == b.fields().0 && a.fields().1 == b.fields().1 && a.fields().2
            == b.fields().2 && a.fields().3 < b.fields().3 ==> a.spec_before(b),
        a.fields().0 == b.fields().0 && a.fields().1 == b.fields().1 && a.fields().2
            == b.fields().2 && a.fields().3 == b.fields().3 && a.fields().4 < b.fields().4
            ==> a.spec_before(b),
        a.fields().0 == b.fields().0 && a.fields().1 == b.fields().1 && a.fields().2
            == b.fields().2 && a.fields().3 == b.fields().3 && a.fields().4 == b.fields().4
            && a.fields().5 < b.fields().5 ==> a.spec_before(b),
        a.fields().0 == b.fields().0 && a.fields().1 == b.fields().1 && a.fields().2
            == b.fields().2 && a.fields().3 == b.fields().3 && a.fields().4 == b.fields().4
            && a.fields().5 == b.fields().5 && a.fields().6 < b.fields().6 ==> a.spec_before(b),
        a.fields() == b.fields() ==> !a.spec_before(b),
        a.spec_before(b) ==> !b.spec_before(a),
{
}

/// A date exists exactly when its year lies in the supported range and its
/// day fits the month of the proleptic Gregorian calendar: January, March,
/// May, July, August, October and December have 31 days; April, June,
/// September and November 30; February 29 in a leap year (divisible by 4,
/// and by 400 where divisible by 100), else 28.
pub proof fn lemma_calendar(year: i32, month: u32, day: u32)
    ensures
        fields_valid((year, month, day, 0, 0, 0, 0)) <==> {
            &&& MIN_YEAR <= year <= MAX_YEAR
            &&& 1 <= month <= 12
            &&& 1 <= day
            &&& {
                ||| day <= 28
                ||| day <= 30 && month != 2
                ||| day == 29 && month == 2 && year % 4 == 0 && (year % 100 != 0 || year % 400
                    == 0)
                ||| day == 31 && (month == 1 || month == 3 || month == 5 || month == 7 || month
                    == 8 || month == 10 || month == 12)
            }
        },
{
}

/// The ASCII digit for `d` (0 to 9).
pub open spec fn digit_byte(d: int) -> u8 {
    (48 + d) as u8
}

/// The decimal digits of `n`, without leading zeros.
pub open spec fn decimal(n: nat) -> Seq<u8>
    decreases n,
{
    if n < 10 {
        seq![digit_byte(n as int)]
    } else {
        decimal(n / 10).push(digit_byte((n % 10) as int))
    }
}

/// `s` with zeros in front up to `width` bytes.
pub open spec fn zero_padded(s: Seq<u8>, width: nat) -> Seq<u8> {
    if s.len() >= width {
        s
    } else {
        Seq::new((width - s.len()) as nat, |i: int| 48u8) + s
    }
}

/// The two decimal digits of `n` (below 100).
pub open spec fn two_digits(n: int) -> Seq<u8> {
    seq![digit_byte(n / 10), digit_byte(n % 10)]
}

/// A year as `%Y` writes it: four digits from 0 to 9999, else a sign and at
/// least four digits.
pub open spec fn year_text(y: int) -> Seq<u8> {
    if 0 <= y <= 9999 {
        zero_padded(decimal(y as nat), 4)
    } else if y < 0 {
        seq![45u8] + zero_padded(decimal((-y) as nat), 4)
    } else {
        seq![43u8] + zero_padded(decimal(y as nat), 4)
    }
}

/// The text `%Y-%m-%dT%H:%M:%S` gives for the fields `f`: the form in
/// which deletion dates are written. A leap second shows as second 60.
pub open spec fn deletion_date_text(f: (i32, u32, u32, u32, u32, u32, u32)) -> Seq<u8> {
    year_text(f.0 as int) + seq![45u8] + two_digits(f.1 as int) + seq![45u8] + two_digits(
        f.2 as int,
    ) + seq![84u8] + two_digits(f.3 as int) + seq![58u8] + two_digits(f.4 as int) + seq![58u8]
        + two_digits(f.5 + f.6 / 1_000_000_000)
}

/// What `chrono::NaiveDateTime::from_str` returns for the text, as fields.
pub uninterp spec fn naive_datetime_from_str(text: Seq<u8>) -> Option<
    (i32, u32, u32, u32, u32, u32, u32),
>;

/// What `chrono::DateTime::parse_from_rfc3339` returns for the text, taken as
/// local time of its own offset, as fields.
pub uninterp spec fn naive_datetime_from_rfc3339(text: Seq<u8>) -> Option<
    (i32, u32, u32, u32, u32, u32, u32),
>;

/// What `chrono::NaiveDateTime::parse_from_str` returns for the text and the
/// format `%Y%m%dT%H:%M:%S`, as fields.
pub uninterp spec fn naive_datetime_from_compact(text: Seq<u8>) -> Option<
    (i32, u32, u32, u32, u32, u32, u32),
>;

/// What `chrono::DateTime::parse_from_rfc2822` returns for the text, taken as
/// local time of its own offset, as fields.
pub uninterp spec fn naive_datetime_from_rfc2822(text: Seq<u8>) -> Option<
    (i32, u32, u32, u32, u32, u32, u32),
>;

/// Calls `chrono::NaiveDateTime::from_str` (format `%Y-%m-%dT%H:%M:%S%.f`) on
/// the text. Claimed: the result is the one named `naive_datetime_from_str`
/// of the text, and a parsed value is a valid date and time (chrono holds no
/// other).
#[verifier::external_body]
pub(crate) fn chrono_from_str(text: &[u8]) -> (r: Result<
    (i32, u32, u32, u32, u32, u32, u32),
    chrono::ParseError,
>)
    ensures
        match r {
            Ok(f) => naive_datetime_from_str(text@) == Some(f) && fields_valid(f),
            Err(_) => naive_datetime_from_str(text@) is None,
        },
{
    let text = String::from_utf8_lossy(text);
    chrono::NaiveDateTime::from_str(&text).map(
        |d| (d.year(), d.month(), d.day(), d.hour(), d.minute(), d.second(), d.nanosecond()),
    )
}

/// Calls `chrono::DateTime::parse_from_rfc3339` on the text and takes the
/// local time of the parsed offset (`naive_local`). Claimed: the result is the
/// one named `naive_datetime_from_rfc3339`, and it is a valid date and time.
#[verifier::external_body]
pub(crate) fn chrono_from_rfc3339(text: &[u8]) -> (r: Result<
    (i32, u32, u32, u32, u32, u32, u32),
    chrono::ParseError,
>)
    ensures
        match r {
            Ok(f) => naive_datetime_from_rfc3339(text@) == Some(f) && fields_valid(f),
            Err(_) => naive_datetime_from_rfc3339(text@) is None,
        },
{
    let text = String::from_utf8_lossy(text);
    chrono::DateTime::parse_from_rfc3339(&text).map(|x| x.naive_local()).map(
        |d| (d.year(), d.month(), d.day(), d.hour(), d.minute(), d.second(), d.nanosecond()),
    )
}

/// Calls `chrono::NaiveDateTime::parse_from_str` on the text with the format
/// `%Y%m%dT%H:%M:%S`. Claimed: the result is the one named
/// `naive_datetime_from_compact`, and it is a valid date and time.
#[verifier::external_body]
pub(crate) fn chrono_from_compact(text: &[u8]) -> (r: Result<
    (i32, u32, u32, u32, u32, u32, u32),
    chrono::ParseError,
>)
    ensures
        match r {
            Ok(f) => naive_datetime_from_compact(text@) == Some(f) && fields_valid(f),
            Err(_) => naive_datetime_from_compact(text@) is None,
        },
{
    let text = String::from_utf8_lossy(text);
    chrono::NaiveDateTime::parse_from_str(&text, "%Y%m%dT%H:%M:%S").map(
        |d| (d.year(), d.month(), d.day(), d.hour(), d.minute(), d.second(), d.nanosecond()),
    )
}

/// Calls `chrono::DateTime::parse_from_rfc2822` on the text and takes the
/// local time of the parsed offset (`naive_local`). Claimed: the result is the
/// one named `naive_datetime_from_rfc2822`, and it is a valid date and time.
#[verifier::external_body]
pub(crate) fn chrono_from_rfc2822(text: &[u8]) -> (r: Result<
    (i32, u32, u32, u32, u32, u32, u32),
    chrono::ParseError,
>)
    ensures
        match r {
            Ok(f) => naive_datetime_from_rfc2822(text@) == Some(f) && fields_valid(f),
            Err(_) => naive_datetime_from_rfc2822(text@) is None,
        },
{
    let text = String::from_utf8_lossy(text);
    chrono::DateTime::parse_from_rfc2822(&text).map(|x| x.naive_local()).map(
        |d| (d.year(), d.month(), d.day(), d.hour(), d.minute(), d.second(), d.nanosecond()),
    )
}

/// Formats the date and time with `chrono`'s `format("%Y-%m-%dT%H:%M:%S")`.
/// Claimed: the text is `deletion_date_text` of the fields (chrono's `%Y`
/// writes four digits for years 0 to 9999, else a sign and at least four
/// digits; the others two digits, a leap second as 60), and, as the
/// documentation of `NaiveDateTime::from_str` gives, that parser reads such a
/// text back to the same date and time with the fraction of the second
/// dropped, for a time that is not a leap second.
#[verifier::external_body]
pub(crate) fn chrono_format_deletion_date(dt: &LocalDateTime) -> (r: Vec<u8>)
    ensures
        r@ == deletion_date_text(dt.fields()),
        dt.fields().6 < 1_000_000_000 ==> naive_datetime_from_str(r@) == Some(dt.whole_seconds()),
{
    let d = chrono::NaiveDate::from_ymd_opt(dt.year, dt.month, dt.day).unwrap();
    let d = d.and_hms_nano_opt(dt.hour, dt.minute, dt.second, dt.nanosecond).unwrap();
    d.format("%Y-%m-%dT%H:%M:%S").to_string().into_bytes()
}

/// Whether the byte can end a line or a key of a `.trashinfo` file.
pub open spec fn is_line_syntax(b: u8) -> bool {
    b == 10u8 || b == 13u8 || b == 61u8
}

/// The text holds no line break, carriage return or `=`.
pub open spec fn free_of_line_syntax(s: Seq<u8>) -> bool {
    forall|i: int| 0 <= i < s.len() ==> !is_line_syntax(#[trigger] s[i])
}

/// Decimal digits are ASCII digits.
pub proof fn lemma_decimal_digits(n: nat)
    ensures
        forall|i: int| 0 <= i < decimal(n).len() ==> 48 <= #[trigger] decimal(n)[i] <= 57,
        decimal(n).len() >= 1,
    decreases n,
{
    if n >= 10 {
        lemma_decimal_digits(n / 10);
    }
}

/// A formatted deletion date holds no line syntax.
pub proof fn lemma_deletion_date_text_plain(f: (i32, u32, u32, u32, u32, u32, u32))
    requires
        fields_valid(f),
    ensures
        free_of_line_syntax(deletion_date_text(f)),
{
    let y = f.0 as int;
    let n: nat = if y < 0 {
        (-y) as nat
    } else {
        y as nat
    };
    lemma_decimal_digits(n);
    let yt = year_text(y);
    assert(forall|i: int| 0 <= i < yt.len() ==> !is_line_syntax(#[trigger] yt[i]));
    let s = deletion_date_text(f);
    assert forall|i: int| 0 <= i < s.len() implies !is_line_syntax(#[trigger] s[i]) by {
        if i < yt.len() {
            assert(s[i] == yt[i]);
        }
    }
}

} // verus!
