//! Readings of the clock: a date, a time of day and the day of the week.

use vstd::prelude::*;
use crate::text::same_text;

verus! {

/// A time of day.
#[derive(Debug, Clone, Copy, PartialEq, Eq, Structural)]
pub struct Time {
    pub hour: u32,
    pub minutes: u32,
}

impl Time {
    pub fn new(hour: u32, minutes: u32) -> (time: Time)
        ensures
            time == (Time { hour, minutes }),
    {
        Time { hour, minutes }
    }
}

/// A day of the calendar.
#[derive(Debug, Clone, Copy, PartialEq, Eq, Structural)]
pub struct Date {
    pub day: u32,
    pub month: u32,
    pub year: i32,
}

impl Date {
    pub fn new(day: u32, month: u32, year: i32) -> (date: Date)
        ensures
            date == (Date { day, month, year }),
    {
        Date { day, month, year }
    }
}

/// A day of the week.
#[derive(Debug, Clone, Copy, PartialEq, Eq, Structural)]
pub enum Weekday {
    Mon,
    Tue,
    Wed,
    Thu,
    Fri,
    Sat,
    Sun,
}

impl Weekday {
    /// The three lowercase letters that name the day.
    pub open spec fn code(self) -> Seq<char> {
        match self {
            Weekday::Mon => "mon"@,
            Weekday::Tue => "tue"@,
            Weekday::Wed => "wed"@,
            Weekday::Thu => "thu"@,
            Weekday::Fri => "fri"@,
            Weekday::Sat => "sat"@,
            Weekday::Sun => "sun"@,
        }
    }

    /// The three lowercase letters that name the day.
    pub fn abbreviation(self) -> (code: &'static str)
        ensures
            code@ == self.code(),
    {
        match self {
            Weekday::Mon => "mon",
            Weekday::Tue => "tue",
            Weekday::Wed => "wed",
            Weekday::Thu => "thu",
            Weekday::Fri => "fri",
            Weekday::Sat => "sat",
            Weekday::Sun => "sun",
        }
    }

    /// The day that `code` names, if it is exactly the code of one.
    pub fn from_code(code: &str) -> (day: Option<Weekday>)
        ensures
            day == weekday_named(code@),
    {
        if same_text(code, "mon") {
            Some(Weekday::Mon)
        } else if same_text(code, "tue") {
            Some(Weekday::Tue)
        } else if same_text(code, "wed") {
            Some(Weekday::Wed)
        } else if same_text(code, "thu") {
            Some(Weekday::Thu)
        } else if same_text(code, "fri") {
            Some(Weekday::Fri)
        } else if same_text(code, "sat") {
            Some(Weekday::Sat)
        } else if same_text(code, "sun") {
            Some(Weekday::Sun)
        } else {
            None
        }
    }

    /// Whether `lowered`, a name already in lowercase, names this day.
    pub fn is_named(self, lowered: &str) -> (r: bool)
        ensures
            r == (lowered@ == self.code()),
    {
        same_text(lowered, self.abbreviation())
    }
}

/// The day of the week whose code is `code`, if there is one.
pub open spec fn weekday_named(code: Seq<char>) -> Option<Weekday> {
    if code == "mon"@ {
        Some(Weekday::Mon)
    } else if code == "tue"@ {
        Some(Weekday::Tue)
    } else if code == "wed"@ {
        Some(Weekday::Wed)
    } else if code == "thu"@ {
        Some(Weekday::Thu)
    } else if code == "fri"@ {
        Some(Weekday::Fri)
    } else if code == "sat"@ {
        Some(Weekday::Sat)
    } else if code == "sun"@ {
        Some(Weekday::Sun)
    } else {
        None
    }
}

/// A code names a day exactly if it is that day's code: the seven codes
/// differ, and each has three letters.
pub proof fn lemma_weekday_codes(day: Weekday, code: Seq<char>)
    ensures
        day.code().len() == 3,
        weekday_named(code) == Some(day) <==> code == day.code(),
{
    reveal_strlit("mon");
    reveal_strlit("tue");
    reveal_strlit("wed");
    reveal_strlit("thu");
    reveal_strlit("fri");
    reveal_strlit("sat");
    reveal_strlit("sun");
    if code == day.code() {
        assert(code[0] == day.code()[0]);
        assert(code[1] == day.code()[1]);
        assert(code[2] == day.code()[2]);
    }
}

/// The day of the week on which a date of the proleptic Gregorian calendar
/// falls, or `None` where chrono has no such date: the calendar lacks the
/// day, or the year lies outside the years that chrono covers.
pub uninterp spec fn calendar_weekday(year: int, month: int, day: int) -> Option<Weekday>;

/// `NaiveDate::from_ymd_opt` of chrono, and `Datelike::weekday` on the date
/// it gives: the day of the week of a date, or `None` where chrono gives no
/// date, be it that the calendar lacks the day or that the year lies outside
/// chrono's range. Nothing is claimed of the answer but that it depends on
/// the three numbers alone.
#[verifier::external_body]
fn weekday_of(year: i32, month: u32, day: u32) -> (r: Option<Weekday>)
    ensures
        r == calendar_weekday(year as int, month as int, day as int),
{
    let date = chrono::NaiveDate::from_ymd_opt(year, month, day)?;
    Some(match chrono::Datelike::weekday(&date) {
        chrono::Weekday::Mon => Weekday::Mon,
        chrono::Weekday::Tue => Weekday::Tue,
        chrono::Weekday::Wed => Weekday::Wed,
        chrono::Weekday::Thu => Weekday::Thu,
        chrono::Weekday::Fri => Weekday::Fri,
        chrono::Weekday::Sat => Weekday::Sat,
        chrono::Weekday::Sun => Weekday::Sun,
    })
}

/// A reading of the clock: the date, the time of day, and the day of the
/// week.
#[derive(Debug, Clone, Copy, PartialEq, Eq, Structural)]
pub struct Moment {
    pub date: Date,
    pub time: Time,
    pub weekday: Weekday,
}

/// The reading of the given time on the given date and day of the week,
/// where the time is one of the day: an hour up to 23 and a minute up to 59.
pub open spec fn moment_on(date: Date, time: Time, weekday: Weekday) -> Option<Moment> {
    if time.hour <= 23 && time.minutes <= 59 {
        Some(Moment { date, time, weekday })
    } else {
        None
    }
}

/// The reading of the given time on the given date, where chrono has that
/// date and the time is one of the day.
pub open spec fn moment_at(date: Date, time: Time) -> Option<Moment> {
    match calendar_weekday(date.year as int, date.month as int, date.day as int) {
        Some(weekday) => moment_on(date, time, weekday),
        None => None,
    }
}

impl Moment {
    /// The reading of `time` on `date`, which falls on `weekday`.
    pub fn on(date: Date, time: Time, weekday: Weekday) -> (moment: Option<Moment>)
        ensures
            moment == moment_on(date, time, weekday),
    {
        if time.hour <= 23 && time.minutes <= 59 {
            Some(Moment { date, time, weekday })
        } else {
            None
        }
    }

    /// The reading of `time` on `date`; the calendar gives the day of the
    /// week.
    pub fn new(date: Date, time: Time) -> (moment: Option<Moment>)
        ensures
            moment == moment_at(date, time),
    {
        match weekday_of(date.year, date.month, date.day) {
            Some(weekday) => Moment::on(date, time, weekday),
            None => None,
        }
    }
}

} // verus!
