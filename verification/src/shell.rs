//! One line of the interactive prompt: what it asks for and what becomes of
//! the list of reminders.

use vstd::prelude::*;
use crate::lexer::{Lexer, Token, TokenKind, TokenView};
use crate::parser::{
    fault_of, get_command, parse_time_marked, time_outcome, Command, Fault, FaultView,
};
use crate::reminder::{Reminder, ReminderView};
use crate::schedule::views_of;
use crate::stream::tokens_from;

verus! {

/// What a line of the prompt leads to.
#[derive(Debug)]
pub enum Step {
    /// The line is empty.
    Nothing,
    /// The program is to end.
    Quit,
    /// The reminders are to be listed.
    List,
    /// A reminder is to be edited.
    Edit,
    /// The usage is to be shown.
    Help,
    /// A reminder was added to the list.
    Added,
    /// The reminder could not be parsed: the error, and how wide the token
    /// is that caused it.
    Failed(Fault),
    /// The line begins with no command, but with this token.
    Invalid(Token),
}

/// A step as a mathematical value; `Added` holds the reminder that was
/// added.
pub enum StepView {
    Nothing,
    Quit,
    List,
    Edit,
    Help,
    Added(ReminderView),
    Failed(FaultView),
    Invalid(TokenView),
}

/// What the line with the tokens `ts` leads to. The first token decides:
/// `remind` is followed by a reminder at a time of day. Where that cannot be
/// parsed, the fault holds the error and the width of the last token
/// taken, which is the one that the error is about.
pub open spec fn step_for(ts: Seq<TokenView>) -> StepView {
    match ts[0].kind {
        TokenKind::End => StepView::Nothing,
        TokenKind::Quit => StepView::Quit,
        TokenKind::List => StepView::List,
        TokenKind::Edit => StepView::Edit,
        TokenKind::Help => StepView::Help,
        TokenKind::Remind => match time_outcome(ts.skip(1)).result {
            Ok(reminder) => StepView::Added(reminder),
            Err(_) => StepView::Failed(fault_of(ts.skip(1), time_outcome(ts.skip(1))).unwrap()),
        },
        _ => StepView::Invalid(ts[0]),
    }
}

/// Whether `step` is what `expected` says.
pub open spec fn step_is(step: Step, expected: StepView) -> bool {
    match step {
        Step::Nothing => expected is Nothing,
        Step::Quit => expected is Quit,
        Step::List => expected is List,
        Step::Edit => expected is Edit,
        Step::Help => expected is Help,
        Step::Added => expected is Added,
        Step::Failed(f) => expected == StepView::Failed(f@),
        Step::Invalid(t) => expected == StepView::Invalid(t@),
    }
}

/// Reads one line of the prompt and does what it asks of the list of
/// reminders: a reminder that the line gives is added at its end, and
/// nothing else changes the list.
pub fn step(line: Vec<char>, reminders: &mut Vec<Reminder>) -> (step: Step)
    requires
        line.len() < usize::MAX,
    ensures
        step_is(step, step_for(tokens_from(line@, None, 0))),
        views_of(final(reminders)@) == match step_for(tokens_from(line@, None, 0)) {
            StepView::Added(reminder) => views_of(old(reminders)@).push(reminder),
            _ => views_of(old(reminders)@),
        },
{
    let mut lexer = Lexer::new(line, None);
    let ghost ts = lexer@.remaining();
    proof {
        lexer.lemma_remaining();
    }
    match get_command(&mut lexer) {
        None => Step::Nothing,
        Some(Command::Quit) => Step::Quit,
        Some(Command::List) => Step::List,
        Some(Command::Edit) => Step::Edit,
        Some(Command::Help) => Step::Help,
        Some(Command::Invalid(Some(token))) => Step::Invalid(token),
        Some(Command::Invalid(None)) => Step::Nothing,
        Some(Command::Remind) => {
            proof {
                assert(ts.drop_first() =~= ts.skip(1));
            }
            match parse_time_marked(&mut lexer) {
                Ok(reminder) => {
                    let ghost before = views_of(reminders@);
                    reminders.push(reminder);
                    proof {
                        assert(views_of(reminders@) =~= before.push(reminder@));
                    }
                    Step::Added
                },
                Err(f) => Step::Failed(f),
            }
        },
    }
}

} // verus!
