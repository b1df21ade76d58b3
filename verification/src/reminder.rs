//! Reminders, and when one is due.

use vstd::prelude::*;
use crate::clock::Moment;
use crate::lexer::opt_text;
use crate::text::lowercase_of;

verus! {

/// When a reminder fires.
///
/// In `Date`, a year of 0 and a month of 0 stand for any year and any month.
#[derive(Debug)]
pub enum When {
    /// After so many checks more.
    Duration(u32),
    /// On the named day of the week, from the given hour and minute on.
    Day(String, u32, u32),
    /// From the given day, month and year on, from the given hour and
    /// minute on.
    Date(u32, u32, i32, u32, u32),
    /// Every day, from the given hour and minute on.
    Time(u32, u32),
}

/// `When` as a mathematical value.
pub enum WhenView {
    Duration(nat),
    Day(Seq<char>, nat, nat),
    Date(nat, nat, int, nat, nat),
    Time(nat, nat),
}

impl View for When {
    type V = WhenView;

    open spec fn view(&self) -> WhenView {
        match *self {
            When::Duration(seconds) => WhenView::Duration(seconds as nat),
            When::Day(name, hour, minute) => WhenView::Day(name@, hour as nat, minute as nat),
            When::Date(day, month, year, hour, minute) => WhenView::Date(
                day as nat,
                month as nat,
                year as int,
                hour as nat,
                minute as nat,
            ),
            When::Time(hour, minute) => WhenView::Time(hour as nat, minute as nat),
        }
    }
}

impl WhenView {
    /// Whether a reminder is due at `now`.
    ///
    /// A duration is due once it has run down to 0. The others are due from
    /// a threshold on: the clock shows at least the hour and at least the
    /// minute; for `Day`, the day of the week is moreover the named one,
    /// whatever the case of the letters; for `Date`, the day of the month is
    /// at least the given one, and so are the month and the year unless they
    /// are 0.
    pub open spec fn is_due(self, now: Moment) -> bool {
        match self {
            WhenView::Duration(seconds) => seconds == 0,
            WhenView::Day(name, hour, minute) => {
                &&& lowercase_of(name) == now.weekday.code()
                &&& hour <= now.time.hour
                &&& minute <= now.time.minutes
            },
            WhenView::Date(day, month, year, hour, minute) => {
                &&& (year <= now.date.year || year == 0)
                &&& (month <= now.date.month || month == 0)
                &&& day <= now.date.day
                &&& hour <= now.time.hour
                &&& minute <= now.time.minutes
            },
            WhenView::Time(hour, minute) => hour <= now.time.hour && minute <= now.time.minutes,
        }
    }

    /// What a check leaves: a duration that has not run down is one
    /// shorter, and nothing else changes.
    pub open spec fn checked(self) -> WhenView {
        match self {
            WhenView::Duration(seconds) => if seconds > 0 {
                WhenView::Duration((seconds - 1) as nat)
            } else {
                self
            },
            _ => self,
        }
    }
}

impl WhenView {
    /// What `times` checks in a row leave.
    pub open spec fn checked_times(self, times: nat) -> WhenView
        decreases times,
    {
        if times == 0 {
            self
        } else {
            self.checked().checked_times((times - 1) as nat)
        }
    }
}

/// A duration counts down by one with each check until it is 0: after
/// `times` checks a duration of `seconds` is what is left of it, and it is
/// due then exactly if nothing is left. Once it is 0 it stays so.
pub proof fn lemma_duration_counts_down(seconds: nat, times: nat, now: Moment)
    ensures
        WhenView::Duration(seconds).checked_times(times) == WhenView::Duration(
            if times <= seconds {
                (seconds - times) as nat
            } else {
                0
            },
        ),
        WhenView::Duration(seconds).checked_times(times).is_due(now) <==> times >= seconds,
    decreases times,
{
    if times > 0 {
        if seconds > 0 {
            lemma_duration_counts_down((seconds - 1) as nat, (times - 1) as nat, now);
        } else {
            lemma_duration_counts_down(0, (times - 1) as nat, now);
        }
    }
}

/// Only a duration changes when it is checked: a time of day, a day of the
/// week and a date are thresholds, and stay what they are.
pub proof fn lemma_thresholds_stay(threshold: WhenView, times: nat)
    requires
        !(threshold is Duration),
    ensures
        threshold.checked_times(times) == threshold,
    decreases times,
{
    if times > 0 {
        lemma_thresholds_stay(threshold, (times - 1) as nat);
    }
}

/// A reminder: what to say, when to say it, and whether it has been said.
#[derive(Debug)]
pub struct Reminder {
    summary: String,
    body: Option<String>,
    when: When,
    done: bool,
}

/// A reminder as a mathematical value.
pub struct ReminderView {
    pub summary: Seq<char>,
    pub body: Option<Seq<char>>,
    pub when: WhenView,
    pub done: bool,
}

impl View for Reminder {
    type V = ReminderView;

    closed spec fn view(&self) -> ReminderView {
        ReminderView {
            summary: self.summary@,
            body: opt_text(self.body),
            when: self.when@,
            done: self.done,
        }
    }
}

impl Reminder {
    /// A reminder that has not been shown yet.
    pub fn new(when: When, summary: String, body: Option<String>) -> (reminder: Reminder)
        ensures
            reminder@ == (ReminderView {
                summary: summary@,
                body: opt_text(body),
                when: when@,
                done: false,
            }),
    {
        Reminder { when, summary, body, done: false }
    }

    /// Tells whether the reminder is due at `now`. A duration that has not
    /// run down is one shorter afterwards; nothing else changes.
    pub fn check(&mut self, now: Moment) -> (due: bool)
        ensures
            due == old(self)@.when.is_due(now),
            final(self)@ == (ReminderView { when: old(self)@.when.checked(), ..old(self)@ }),
    {
        match &self.when {
            When::Duration(seconds) => {
                let left: u32 = *seconds;
                if left > 0 {
                    self.when = When::Duration(left - 1);
                    false
                } else {
                    true
                }
            },
            When::Day(name, hour, minute) => {
                let lowered = name.as_str().to_lowercase();
                now.weekday.is_named(lowered.as_str()) && *hour <= now.time.hour && *minute
                    <= now.time.minutes
            },
            When::Date(day, month, year, hour, minute) => {
                (*year <= now.date.year || *year == 0) && (*month <= now.date.month || *month == 0)
                    && *day <= now.date.day && *hour <= now.time.hour && *minute
                    <= now.time.minutes
            },
            When::Time(hour, minute) => *hour <= now.time.hour && *minute <= now.time.minutes,
        }
    }

    /// Whether the reminder has been shown.
    pub fn is_done(&self) -> (done: bool)
        ensures
            done == self@.done,
    {
        self.done
    }

    /// Records that the reminder has been shown.
    pub fn mark_done(&mut self)
        ensures
            final(self)@ == (ReminderView { done: true, ..old(self)@ }),
    {
        self.done = true;
    }

    /// What the reminder says.
    pub fn summary(&self) -> (summary: &String)
        ensures
            summary@ == self@.summary,
    {
        &self.summary
    }

    /// What the reminder says at more length, if anything.
    pub fn body(&self) -> (body: &Option<String>)
        ensures
            opt_text(*body) == self@.body,
    {
        &self.body
    }

    /// When the reminder fires.
    pub fn schedule(&self) -> (schedule: &When)
        ensures
            schedule@ == self@.when,
    {
        &self.when
    }
}

} // verus!
