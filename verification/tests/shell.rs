use remember::lexer::TokenKind;
use remember::parser::ParserError;
use remember::reminder::{Reminder, When};
use remember::shell::{step, Step};

fn run(line: &str, reminders: &mut Vec<Reminder>) -> Step {
    step(line.chars().collect(), reminders)
}

#[test]
fn plain_commands_leave_the_list_alone() {
    let mut reminders = vec![Reminder::new(When::Duration(1), String::from("a"), None)];
    assert!(matches!(run("quit", &mut reminders), Step::Quit));
    assert!(matches!(run("list", &mut reminders), Step::List));
    assert!(matches!(run("edit 0", &mut reminders), Step::Edit));
    assert!(matches!(run("help", &mut reminders), Step::Help));
    assert!(matches!(run("", &mut reminders), Step::Nothing));
    assert!(matches!(run("# a comment\n", &mut reminders), Step::Nothing));
    assert_eq!(reminders.len(), 1);
}

#[test]
fn remind_adds_a_reminder_at_the_end() {
    let mut reminders = vec![Reminder::new(When::Duration(1), String::from("a"), None)];
    assert!(matches!(run("remind 10 30 'tea' 'green'\n", &mut reminders), Step::Added));
    assert_eq!(reminders.len(), 2);
    assert_eq!(reminders[0].summary(), "a");
    assert_eq!(reminders[1].summary(), "tea");
    assert_eq!(reminders[1].body().as_deref(), Some("green"));
    assert!(matches!(reminders[1].schedule(), When::Time(10, 30)));
    assert!(!reminders[1].is_done());
    assert!(matches!(run("r 1 2", &mut reminders), Step::Added));
    assert_eq!(reminders.len(), 3);
    assert_eq!(reminders[2].summary(), "no summary provided");
}

#[test]
fn a_faulty_reminder_is_not_added() {
    let mut reminders: Vec<Reminder> = Vec::new();
    match run("remind 13 0 x", &mut reminders) {
        Step::Failed(failure) => {
            match failure.error {
                ParserError::InvalidNum(ref loc, found, min, max) => {
                    assert_eq!((loc.row, loc.col), (1, 8));
                    assert_eq!((found, min, max), (13, 0, 12));
                },
                ref other => panic!("unexpected error {:?}", other),
            }
            assert_eq!(failure.width, 2);
            assert_eq!(failure.marker(), "        ^^");
        },
        other => panic!("unexpected step {:?}", other),
    }
    match run("remind", &mut reminders) {
        Step::Failed(failure) => {
            assert!(matches!(failure.error, ParserError::NoToken(_)));
            assert_eq!(failure.width, 0);
        },
        other => panic!("unexpected step {:?}", other),
    }
    match run("remind 'x", &mut reminders) {
        Step::Failed(failure) => {
            assert!(matches!(failure.error, ParserError::UnclosedStr(_, _)));
            assert_eq!(failure.width, 1);
        },
        other => panic!("unexpected step {:?}", other),
    }
    match run("remind 10:30", &mut reminders) {
        Step::Failed(failure) => {
            assert!(matches!(
                failure.error,
                ParserError::UnexpectedToken(_, TokenKind::Invalid, _, TokenKind::Num)
            ));
            assert_eq!(failure.marker(), "          ^");
        },
        other => panic!("unexpected step {:?}", other),
    }
    assert!(reminders.is_empty());
}

#[test]
fn what_is_no_command_comes_back() {
    let mut reminders: Vec<Reminder> = Vec::new();
    match run(" dance", &mut reminders) {
        Step::Invalid(token) => {
            assert_eq!(token.kind, TokenKind::Str);
            assert_eq!(token.text, "dance");
            assert_eq!(token.loc.col, 2);
        },
        other => panic!("unexpected step {:?}", other),
    }
    assert!(matches!(run("12 30", &mut reminders), Step::Invalid(_)));
    assert!(matches!(run("?", &mut reminders), Step::Invalid(_)));
    assert!(reminders.is_empty());
}

#[test]
fn the_marker_counts_the_characters_of_the_token() {
    let mut reminders = vec![Reminder::new(When::Duration(1), String::from("a"), None)];
    match run("r 013 0 x", &mut reminders) {
        Step::Failed(failure) => {
            assert!(matches!(failure.error, ParserError::InvalidNum(_, 13, 0, 12)));
            assert_eq!(failure.width, 3);
            assert_eq!(failure.marker(), "   ^^^");
        },
        other => panic!("unexpected step {:?}", other),
    }
    match run("r 99999999999 0 x", &mut reminders) {
        Step::Failed(failure) => {
            assert!(matches!(failure.error, ParserError::InvalidNum(_, 2147483647, 0, 12)));
            assert_eq!(failure.marker(), "   ^^^^^^^^^^^");
        },
        other => panic!("unexpected step {:?}", other),
    }
    match run("r 13 0 x", &mut reminders) {
        Step::Failed(failure) => assert_eq!(failure.marker(), "   ^^"),
        other => panic!("unexpected step {:?}", other),
    }
    assert_eq!(reminders.len(), 1);
    assert_eq!(reminders[0].summary(), "a");
}
