use vstd::prelude::*;
use chrono::Datelike;
use chrono::Timelike;

use crate::text::{push_char, push_zero_padded, zero_padded};

verus! {

/// The earliest and latest years of the proleptic Gregorian calendar that are represented.
pub const MIN_YEAR: i32 = -262143;

pub const MAX_YEAR: i32 = 262142;

/// The layout of a time inside a stored record: `YYYY-MM-DD HH:MM:SS`.
pub const RECORD_TIME_FORMAT: &'static str = "%Y-%m-%d %H:%M:%S";

/// The layout in which a person types a time: `MM-DD-YYYY HH:MM`.
pub const INPUT_TIME_FORMAT: &'static str = "%m-%d-%Y %H:%M";

/// A calendar date and a time of day to the second, with no time zone.
#[derive(Clone, Copy, Debug, PartialEq, Eq, Structural)]
pub struct Timestamp {
    pub year: i32,
    pub month: u32,
    pub day: u32,
    pub hour: u32,
    pub minute: u32,
    pub second: u32,
}

pub open spec fn is_leap_year(year: int) -> bool {
    (year % 4 == 0 && year % 100 != 0) || year % 400 == 0
}

pub open spec fn days_in_month(year: int, month: int) -> int {
    if month == 2 {
        if is_leap_year(year) {
            29
        } else {
            28
        }
    } else if month == 4 || month == 6 || month == 9 || month == 11 {
        30
    } else {
        31
    }
}

pub open spec fn valid_date_time(
    year: int,
    month: int,
    day: int,
    hour: int,
    minute: int,
    second: int,
) -> bool {
    &&& MIN_YEAR <= year <= MAX_YEAR
    &&& 1 <= month <= 12
    &&& 1 <= day <= days_in_month(year, month)
    &&& 0 <= hour < 24
    &&& 0 <= minute < 60
    &&& 0 <= second < 60
}

/// How a year is written: four digits at least, with a sign outside `0..=9999`.
pub open spec fn year_text(year: int) -> Seq<char> {
    if 0 <= year <= 9999 {
        zero_padded(year as nat, 4)
    } else if year < 0 {
        seq!['-'] + zero_padded((-year) as nat, 4)
    } else {
        seq!['+'] + zero_padded(year as nat, 4)
    }
}

/// A two-digit field after its separator.
pub open spec fn field_text(separator: char, value: nat) -> Seq<char> {
    seq![separator] + zero_padded(value, 2)
}

/// The rendering `YYYY-MM-DD HH:MM:SS` of a timestamp.
pub open spec fn timestamp_text(t: Timestamp) -> Seq<char> {
    year_text(t.year as int) + field_text('-', t.month as nat) + field_text('-', t.day as nat)
        + field_text(' ', t.hour as nat) + field_text(':', t.minute as nat) + field_text(
        ':',
        t.second as nat,
    )
}

/// What `NaiveDateTime::parse_from_str` makes of a text under a format.
pub uninterp spec fn parsed_date_time(text: Seq<char>, format: Seq<char>) -> Option<Timestamp>;

/// Relies on chrono's `NaiveDateTime::parse_from_str`: its result depends on the two strings
/// alone; what it returns is a valid date and time of day (a leap second reads as second 59);
/// and under `%Y-%m-%d %H:%M:%S` the rendering of a valid timestamp parses back to it.
#[verifier::external_body]
pub(crate) fn parse_date_time(text: &str, format: &str) -> (r: Option<Timestamp>)
    ensures
        r == parsed_date_time(text@, format@),
        r matches Some(t) ==> t.wf(),
        format@ == RECORD_TIME_FORMAT@ ==> forall|t: Timestamp|
            t.wf() && text@ == #[trigger] timestamp_text(t) ==> r == Some(t),
{
    match chrono::NaiveDateTime::parse_from_str(text, format) {
        Ok(dt) => Some(
            Timestamp {
                year: dt.year(),
                month: dt.month(),
                day: dt.day(),
                hour: dt.hour(),
                minute: dt.minute(),
                second: dt.second(),
            },
        ),
        Err(_) => None,
    }
}

fn is_leap(year: i32) -> (r: bool)
    requires
        MIN_YEAR <= year <= MAX_YEAR,
    ensures
        r == is_leap_year(year as int),
{
    // Shifting by a multiple of 400 years keeps the leap rule and makes the year positive.
    let shifted: u64 = (year as i64 + 400000) as u64;
    assert(shifted as int % 4 == (year as int) % 4) by (nonlinear_arith)
        requires shifted as int == year as int + 400000;
    assert(shifted as int % 100 == (year as int) % 100) by (nonlinear_arith)
        requires shifted as int == year as int + 400000;
    assert(shifted as int % 400 == (year as int) % 400) by (nonlinear_arith)
        requires shifted as int == year as int + 400000;
    (shifted % 4 == 0 && shifted % 100 != 0) || shifted % 400 == 0
}

fn month_length(year: i32, month: u32) -> (r: u32)
    requires
        MIN_YEAR <= year <= MAX_YEAR,
    ensures
        r == days_in_month(year as int, month as int),
{
    if month == 2 {
        if is_leap(year) {
            29
        } else {
            28
        }
    } else if month == 4 || month == 6 || month == 9 || month == 11 {
        30
    } else {
        31
    }
}

fn push_field(out: &mut String, separator: char, value: u32)
    ensures
        final(out)@ == old(out)@ + field_text(separator, value as nat),
{
    let ghost start = out@;
    push_char(out, separator);
    push_zero_padded(out, value as u64, 2);
    assert(out@ =~= start + field_text(separator, value as nat));
}

impl Timestamp {
    pub open spec fn wf(self) -> bool {
        valid_date_time(
            self.year as int,
            self.month as int,
            self.day as int,
            self.hour as int,
            self.minute as int,
            self.second as int,
        )
    }

    /// The timestamp with these fields, if they name a real date and time of day.
    pub fn new(year: i32, month: u32, day: u32, hour: u32, minute: u32, second: u32) -> (r: Option<
        Timestamp,
    >)
        ensures
            r is Some <==> valid_date_time(
                year as int,
                month as int,
                day as int,
                hour as int,
                minute as int,
                second as int,
            ),
            r matches Some(t) ==> t == (Timestamp { year, month, day, hour, minute, second }),
    {
        if year < MIN_YEAR || year > MAX_YEAR || month < 1 || month > 12 || day < 1 {
            return None;
        }
        if day > month_length(year, month) || hour >= 24 || minute >= 60 || second >= 60 {
            return None;
        }
        Some(Timestamp { year, month, day, hour, minute, second })
    }

    /// Strict chronological order.
    pub open spec fn precedes(self, other: Timestamp) -> bool {
        if self.year != other.year {
            self.year < other.year
        } else if self.month != other.month {
            self.month < other.month
        } else if self.day != other.day {
            self.day < other.day
        } else if self.hour != other.hour {
            self.hour < other.hour
        } else if self.minute != other.minute {
            self.minute < other.minute
        } else {
            self.second < other.second
        }
    }

    pub open spec fn same_date(self, other: Timestamp) -> bool {
        self.year == other.year && self.month == other.month && self.day == other.day
    }

    pub fn is_before(&self, other: &Timestamp) -> (r: bool)
        ensures
            r == self.precedes(*other),
    {
        if self.year != other.year {
            self.year < other.year
        } else if self.month != other.month {
            self.month < other.month
        } else if self.day != other.day {
            self.day < other.day
        } else if self.hour != other.hour {
            self.hour < other.hour
        } else if self.minute != other.minute {
            self.minute < other.minute
        } else {
            self.second < other.second
        }
    }

    /// Whether the two fall on the same calendar day, whatever the time of day.
    pub fn is_same_day(&self, other: &Timestamp) -> (r: bool)
        ensures
            r == self.same_date(*other),
    {
        self.year == other.year && self.month == other.month && self.day == other.day
    }

    fn push_year(&self, out: &mut String)
        ensures
            final(out)@ == old(out)@ + year_text(self.year as int),
    {
        let ghost start = out@;
        if 0 <= self.year && self.year <= 9999 {
            push_zero_padded(out, self.year as u64, 4);
        } else if self.year < 0 {
            push_char(out, '-');
            push_zero_padded(out, (-(self.year as i64)) as u64, 4);
        } else {
            push_char(out, '+');
            push_zero_padded(out, self.year as u64, 4);
        }
        assert(out@ =~= start + year_text(self.year as int));
    }

    /// Appends the rendering `YYYY-MM-DD HH:MM:SS`.
    pub fn push_text(&self, out: &mut String)
        ensures
            final(out)@ == old(out)@ + timestamp_text(*self),
    {
        let ghost start = out@;
        self.push_year(out);
        push_field(out, '-', self.month);
        push_field(out, '-', self.day);
        push_field(out, ' ', self.hour);
        push_field(out, ':', self.minute);
        push_field(out, ':', self.second);
        assert(out@ =~= start + timestamp_text(*self));
    }

    /// The rendering `YYYY-MM-DD HH:MM:SS`.
    pub fn to_text(&self) -> (r: String)
        ensures
            r@ == timestamp_text(*self),
    {
        let mut out = String::new();
        self.push_text(&mut out);
        assert(out@ =~= timestamp_text(*self));
        out
    }

    /// Reads a timestamp written as `YYYY-MM-DD HH:MM:SS`.
    pub fn parse_record_text(text: &str) -> (r: Option<Timestamp>)
        ensures
            r == parsed_date_time(text@, RECORD_TIME_FORMAT@),
            r matches Some(t) ==> t.wf(),
            forall|t: Timestamp| t.wf() && text@ == #[trigger] timestamp_text(t) ==> r == Some(t),
    {
        parse_date_time(text, RECORD_TIME_FORMAT)
    }

    /// Reads a time typed as `MM-DD-YYYY HH:MM`.
    pub fn parse_input_text(text: &str) -> (r: Option<Timestamp>)
        ensures
            r == parsed_date_time(text@, INPUT_TIME_FORMAT@),
            r matches Some(t) ==> t.wf(),
    {
        parse_date_time(text, INPUT_TIME_FORMAT)
    }
}

} // verus!
