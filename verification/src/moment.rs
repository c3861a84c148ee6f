//! Calendar minutes: a date of the civil calendar with an hour and a minute,
//! read from and written to the `dd/mm/yy[ HH:MM]` form.
use crate::text::{push_two_digits, two_digits};
use chrono::{Datelike, Timelike};
use std::cmp::Ordering;
use vstd::prelude::*;

verus! {

/// A year, a month, a day, an hour and a minute as plain numbers. Nothing is
/// promised of them: `Moment` is the checked form.
#[derive(Clone, Copy, Debug, PartialEq, Eq, Structural)]
pub struct Civil {
    pub year: i32,
    pub month: u32,
    pub day: u32,
    pub hour: u32,
    pub minute: u32,
}

/// What `chrono::NaiveDateTime::parse_from_str` reads from `text` under
/// `format`: the year, month, day, hour and minute of the date and time it
/// returns, or `None` where it returns an error.
pub uninterp spec fn datetime_fields(text: Seq<char>, format: Seq<char>) -> Option<
    (i32, u32, u32, u32, u32),
>;

/// What `chrono::NaiveDate::parse_from_str` reads from `text` under `format`:
/// the year, month and day of the date it returns, or `None` where it returns
/// an error.
pub uninterp spec fn date_fields(text: Seq<char>, format: Seq<char>) -> Option<(i32, u32, u32)>;

/// The name that chrono prints for the day of the week on which the given
/// date falls, or `None` where `chrono::NaiveDate::from_ymd_opt` has no such
/// date.
pub uninterp spec fn weekday_label(year: i32, month: u32, day: u32) -> Option<Seq<char>>;

/// Calls `chrono::NaiveDateTime::parse_from_str` and hands out the fields of
/// what it returned. The result is a function of the two texts alone.
#[verifier::external_body]
fn chrono_datetime(text: &str, format: &str) -> (r: Option<(i32, u32, u32, u32, u32)>)
    ensures
        r == datetime_fields(text@, format@),
{
    let parsed = chrono::NaiveDateTime::parse_from_str(text, format).ok()?;
    Some((parsed.year(), parsed.month(), parsed.day(), parsed.hour(), parsed.minute()))
}

/// Calls `chrono::NaiveDate::parse_from_str` and hands out the fields of what
/// it returned. The result is a function of the two texts alone.
#[verifier::external_body]
fn chrono_date(text: &str, format: &str) -> (r: Option<(i32, u32, u32)>)
    ensures
        r == date_fields(text@, format@),
{
    let parsed = chrono::NaiveDate::parse_from_str(text, format).ok()?;
    Some((parsed.year(), parsed.month(), parsed.day()))
}

/// Calls `chrono::NaiveDate::from_ymd_opt` and, where that date exists, prints
/// its `weekday()`. The result is a function of the three numbers alone.
#[verifier::external_body]
fn chrono_weekday(year: i32, month: u32, day: u32) -> (r: Option<String>)
    ensures
        match r {
            Some(label) => weekday_label(year, month, day) == Some(label@),
            None => weekday_label(year, month, day) is None,
        },
{
    chrono::NaiveDate::from_ymd_opt(year, month, day).map(|date| date.weekday().to_string())
}

/// Whether `c` names a minute that a `Moment` can hold: a date that the
/// calendar has, in the years 0 to 9999, with an hour below 24 and a minute
/// below 60.
pub open spec fn on_calendar(c: Civil) -> bool {
    &&& 0 <= c.year <= 9999
    &&& 1 <= c.month <= 12
    &&& 1 <= c.day <= 31
    &&& c.hour <= 23
    &&& c.minute <= 59
    &&& weekday_label(c.year, c.month, c.day) is Some
}

/// Whether `a` comes before `b`: by year, then month, day, hour and minute.
pub open spec fn earlier(a: Civil, b: Civil) -> bool {
    ||| a.year < b.year
    ||| a.year == b.year && a.month < b.month
    ||| a.year == b.year && a.month == b.month && a.day < b.day
    ||| a.year == b.year && a.month == b.month && a.day == b.day && a.hour < b.hour
    ||| a.year == b.year && a.month == b.month && a.day == b.day && a.hour == b.hour && a.minute
        < b.minute
}

/// How `a` stands to `b` in time.
pub open spec fn civil_order(a: Civil, b: Civil) -> Ordering {
    if earlier(a, b) {
        Ordering::Less
    } else if earlier(b, a) {
        Ordering::Greater
    } else {
        Ordering::Equal
    }
}

/// The fields that `text` is read as: first as a date with a time, and where
/// that fails as a date alone, which stands for its midnight.
pub open spec fn read_fields(text: Seq<char>) -> Option<Civil> {
    match datetime_fields(text, "%d/%m/%y %H:%M"@) {
        Some(f) => Some(Civil { year: f.0, month: f.1, day: f.2, hour: f.3, minute: f.4 }),
        None => match date_fields(text, "%d/%m/%y"@) {
            Some(d) => Some(Civil { year: d.0, month: d.1, day: d.2, hour: 0, minute: 0 }),
            None => None,
        },
    }
}

/// The minute that `text` names, if it names one.
pub open spec fn read_moment(text: Seq<char>) -> Option<Civil> {
    match read_fields(text) {
        Some(c) => if on_calendar(c) {
            Some(c)
        } else {
            None
        },
        None => None,
    }
}

/// The date of `c` as `<weekday> dd/mm/yy`.
pub open spec fn date_text(c: Civil) -> Seq<char> {
    weekday_label(c.year, c.month, c.day)->0 + seq![' '] + two_digits(c.day as int) + seq!['/']
        + two_digits(c.month as int) + seq!['/'] + two_digits(c.year as int % 100)
}

/// The written form of `c`: its date, and its time as ` HH:MM` unless that
/// is midnight.
pub open spec fn moment_text(c: Civil) -> Seq<char> {
    if c.hour != 0 || c.minute != 0 {
        date_text(c) + seq![' '] + two_digits(c.hour as int) + seq![':'] + two_digits(
            c.minute as int,
        )
    } else {
        date_text(c)
    }
}

/// A minute of the civil calendar. Every value is on the calendar.
#[derive(Clone, Copy, Debug, PartialEq, Eq, Structural)]
pub struct Moment {
    year: i32,
    month: u32,
    day: u32,
    hour: u32,
    minute: u32,
}

impl View for Moment {
    type V = Civil;

    closed spec fn view(&self) -> Civil {
        Civil {
            year: self.year,
            month: self.month,
            day: self.day,
            hour: self.hour,
            minute: self.minute,
        }
    }
}

impl Moment {
    #[verifier::type_invariant]
    spec fn checked(self) -> bool {
        on_calendar(self@)
    }

    /// The moment with the fields of `c`, where `c` is on the calendar.
    pub fn new(c: Civil) -> (r: Option<Moment>)
        ensures
            match r {
                Some(m) => on_calendar(c) && m@ == c,
                None => !on_calendar(c),
            },
    {
        if 0 <= c.year && c.year <= 9999 && 1 <= c.month && c.month <= 12 && 1 <= c.day && c.day
            <= 31 && c.hour <= 23 && c.minute <= 59 {
            match chrono_weekday(c.year, c.month, c.day) {
                Some(_) => Some(
                    Moment {
                        year: c.year,
                        month: c.month,
                        day: c.day,
                        hour: c.hour,
                        minute: c.minute,
                    },
                ),
                None => None,
            }
        } else {
            None
        }
    }

    /// The fields of this moment.
    pub fn civil(&self) -> (c: Civil)
        ensures
            c == self@,
            on_calendar(c),
    {
        proof {
            use_type_invariant(self);
        }
        Civil {
            year: self.year,
            month: self.month,
            day: self.day,
            hour: self.hour,
            minute: self.minute,
        }
    }

    /// How this moment stands to `other` in time.
    pub fn cmp(&self, other: &Moment) -> (r: Ordering)
        ensures
            r == civil_order(self@, other@),
    {
        if self.year != other.year {
            if self.year < other.year {
                Ordering::Less
            } else {
                Ordering::Greater
            }
        } else if self.month != other.month {
            if self.month < other.month {
                Ordering::Less
            } else {
                Ordering::Greater
            }
        } else if self.day != other.day {
            if self.day < other.day {
                Ordering::Less
            } else {
                Ordering::Greater
            }
        } else if self.hour != other.hour {
            if self.hour < other.hour {
                Ordering::Less
            } else {
                Ordering::Greater
            }
        } else if self.minute != other.minute {
            if self.minute < other.minute {
                Ordering::Less
            } else {
                Ordering::Greater
            }
        } else {
            Ordering::Equal
        }
    }
}

impl PartialOrd for Moment {
    fn partial_cmp(&self, other: &Moment) -> (r: Option<Ordering>) {
        Some(self.cmp(other))
    }
}

impl vstd::std_specs::cmp::PartialOrdSpecImpl for Moment {
    open spec fn obeys_partial_cmp_spec() -> bool {
        true
    }

    open spec fn partial_cmp_spec(&self, other: &Moment) -> Option<Ordering> {
        Some(civil_order(self@, other@))
    }
}

/// Reads a moment from `dd/mm/yy HH:MM`, or from `dd/mm/yy`, which stands
/// for the midnight of that day.
pub fn parse_datetime(when: &str) -> (r: Option<Moment>)
    ensures
        match r {
            Some(m) => read_moment(when@) == Some(m@),
            None => read_moment(when@) is None,
        },
{
    match chrono_datetime(when, "%d/%m/%y %H:%M") {
        Some(f) => Moment::new(Civil { year: f.0, month: f.1, day: f.2, hour: f.3, minute: f.4 }),
        None => match chrono_date(when, "%d/%m/%y") {
            Some(d) => Moment::new(Civil { year: d.0, month: d.1, day: d.2, hour: 0, minute: 0 }),
            None => None,
        },
    }
}

/// Writes a moment as `<weekday> dd/mm/yy`, followed by ` HH:MM` unless the
/// time is midnight.
pub fn datetime_to_str(dt: &Moment) -> (r: String)
    ensures
        r@ == moment_text(dt@),
{
    let c = dt.civil();
    let mut out = match chrono_weekday(c.year, c.month, c.day) {
        Some(label) => label,
        None => {
            assert(false);
            String::new()
        },
    };
    let short_year: i32 = c.year % 100;
    out.push(' ');
    push_two_digits(&mut out, c.day);
    out.push('/');
    push_two_digits(&mut out, c.month);
    out.push('/');
    push_two_digits(&mut out, short_year as u32);
    if c.hour != 0 || c.minute != 0 {
        out.push(' ');
        push_two_digits(&mut out, c.hour);
        out.push(':');
        push_two_digits(&mut out, c.minute);
    }
    out
}

} // verus!
