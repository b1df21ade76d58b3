use remember::clock::{Date, Moment, Time, Weekday};
use remember::reminder::{Reminder, When};
use remember::schedule::{compact, tick};

fn noon() -> Moment {
    Moment::on(Date::new(17, 5, 2022), Time::new(12, 0), Weekday::Tue).unwrap()
}

fn named(when: When, summary: &str) -> Reminder {
    Reminder::new(when, String::from(summary), None)
}

fn seconds_left(reminder: &Reminder) -> u32 {
    match reminder.schedule() {
        When::Duration(seconds) => *seconds,
        other => panic!("a duration was expected, not {:?}", other),
    }
}

fn summaries(reminders: &Vec<Reminder>) -> Vec<String> {
    reminders.iter().map(|r| r.summary().clone()).collect()
}

#[test]
fn a_pass_shows_what_is_due() {
    let mut reminders = vec![
        named(When::Duration(0), "now"),
        named(When::Duration(2), "soon"),
        named(When::Time(10, 30), "half past"),
        named(When::Time(10, 0), "ten"),
        named(When::Day(String::from("Tue"), 12, 0), "tuesday"),
        named(When::Day(String::from("wed"), 12, 0), "wednesday"),
    ];
    let due = tick(&mut reminders, noon());
    assert_eq!(due, vec![0, 3, 4]);
    assert_eq!(reminders.len(), 6);
    let done: Vec<bool> = reminders.iter().map(|r| r.is_done()).collect();
    assert_eq!(done, vec![true, false, false, true, true, false]);
    assert_eq!(seconds_left(&reminders[1]), 1);
}

#[test]
fn a_pass_over_nothing() {
    let mut reminders: Vec<Reminder> = Vec::new();
    assert_eq!(tick(&mut reminders, noon()), Vec::<usize>::new());
    assert!(reminders.is_empty());
}

#[test]
fn a_duration_is_shown_on_the_pass_after_it_ran_down() {
    let mut reminders = vec![named(When::Duration(3), "three"), named(When::Duration(1), "one")];
    assert_eq!(tick(&mut reminders, noon()), Vec::<usize>::new());
    assert_eq!(tick(&mut reminders, noon()), vec![1]);
    assert_eq!(tick(&mut reminders, noon()), Vec::<usize>::new());
    assert_eq!(tick(&mut reminders, noon()), vec![0]);
    assert_eq!(tick(&mut reminders, noon()), Vec::<usize>::new());
    assert!(reminders[0].is_done());
    assert!(reminders[1].is_done());
}

#[test]
fn what_was_shown_is_not_checked_again() {
    let mut shown = named(When::Duration(3), "shown");
    shown.mark_done();
    let mut reminders = vec![shown, named(When::Time(0, 0), "always")];
    assert_eq!(tick(&mut reminders, noon()), vec![1]);
    for _ in 0..5 {
        assert_eq!(tick(&mut reminders, noon()), Vec::<usize>::new());
    }
    assert_eq!(seconds_left(&reminders[0]), 3);
    assert!(reminders[0].is_done());
    assert!(reminders[1].is_done());
    assert!(matches!(reminders[1].schedule(), When::Time(0, 0)));
}

#[test]
fn compacting_keeps_the_pending_in_order() {
    let mut reminders = vec![
        named(When::Duration(0), "a"),
        named(When::Duration(5), "b"),
        named(When::Duration(0), "c"),
        named(When::Duration(0), "d"),
        named(When::Duration(7), "e"),
    ];
    tick(&mut reminders, noon());
    compact(&mut reminders);
    assert_eq!(summaries(&reminders), vec!["b", "e"]);
    assert_eq!(seconds_left(&reminders[0]), 4);
    assert_eq!(seconds_left(&reminders[1]), 6);
    compact(&mut reminders);
    assert_eq!(summaries(&reminders), vec!["b", "e"]);
}

#[test]
fn compacting_all_or_nothing() {
    let mut reminders = vec![named(When::Duration(0), "a"), named(When::Duration(0), "b")];
    tick(&mut reminders, noon());
    compact(&mut reminders);
    assert!(reminders.is_empty());
    compact(&mut reminders);
    assert!(reminders.is_empty());
    let mut reminders = vec![named(When::Duration(1), "a"), named(When::Duration(1), "b")];
    compact(&mut reminders);
    assert_eq!(summaries(&reminders), vec!["a", "b"]);
}
