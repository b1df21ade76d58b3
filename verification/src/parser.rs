//! The parser: the command that a line begins with, and the three forms in
//! which a reminder is written.
//!
//! The forms are stated over the tokens that the lexer has still to give:
//! each says what is made of them and how many of them are taken.

use vstd::prelude::*;
use crate::clock::{weekday_named, Weekday};
use crate::lexer::{opt_text, Lexer, LexerView, Loc, LocView, Token, TokenKind, TokenView};
use crate::reminder::{Reminder, ReminderView, When, WhenView};
use crate::stream::well_terminated;
use crate::text::{
    caret_line, decimal_value, is_decimal, marker, parse_decimal, parse_u32, u32_of,
};

verus! {

/// Why a reminder could not be parsed. Each error holds the location of the
/// token that caused it.
#[derive(Debug)]
pub enum ParserError {
    /// The input ended where the reminder should begin.
    NoToken(Loc),
    /// A token of another kind than the expected one: its kind, its text,
    /// and the kind that was expected.
    UnexpectedToken(Loc, TokenKind, String, TokenKind),
    /// A string without its closing quote: the text behind the opening one.
    UnclosedStr(Loc, String),
    /// A word that names no day of the week.
    InvalidDay(Loc, String),
    /// A number outside its range: the number, the least and the greatest
    /// that are allowed.
    InvalidNum(Loc, i32, i32, i32),
}

/// A parse error as a mathematical value.
pub enum ParserErrorView {
    NoToken(LocView),
    UnexpectedToken(LocView, TokenKind, Seq<char>, TokenKind),
    UnclosedStr(LocView, Seq<char>),
    InvalidDay(LocView, Seq<char>),
    InvalidNum(LocView, int, int, int),
}

impl View for ParserError {
    type V = ParserErrorView;

    open spec fn view(&self) -> ParserErrorView {
        match *self {
            ParserError::NoToken(loc) => ParserErrorView::NoToken(loc@),
            ParserError::UnexpectedToken(loc, found, text, expected) => {
                ParserErrorView::UnexpectedToken(loc@, found, text@, expected)
            },
            ParserError::UnclosedStr(loc, text) => ParserErrorView::UnclosedStr(loc@, text@),
            ParserError::InvalidDay(loc, text) => ParserErrorView::InvalidDay(loc@, text@),
            ParserError::InvalidNum(loc, found, min, max) => ParserErrorView::InvalidNum(
                loc@,
                found as int,
                min as int,
                max as int,
            ),
        }
    }
}

impl ParserErrorView {
    /// Where the token that caused the error stands.
    pub open spec fn loc(self) -> LocView {
        match self {
            ParserErrorView::NoToken(loc) => loc,
            ParserErrorView::UnexpectedToken(loc, _, _, _) => loc,
            ParserErrorView::UnclosedStr(loc, _) => loc,
            ParserErrorView::InvalidDay(loc, _) => loc,
            ParserErrorView::InvalidNum(loc, _, _, _) => loc,
        }
    }
}

impl ParserError {
    /// Where the token that caused the error stands.
    pub fn loc(&self) -> (loc: &Loc)
        ensures
            loc@ == self@.loc(),
    {
        match self {
            ParserError::NoToken(loc) => loc,
            ParserError::UnexpectedToken(loc, _, _, _) => loc,
            ParserError::UnclosedStr(loc, _) => loc,
            ParserError::InvalidDay(loc, _) => loc,
            ParserError::InvalidNum(loc, _, _, _) => loc,
        }
    }
}

/// A parse error together with the number of characters of the token that
/// caused it, which the error itself does not always show.
#[derive(Debug)]
pub struct Fault {
    pub error: ParserError,
    pub width: usize,
}

/// A fault as a mathematical value.
pub struct FaultView {
    pub error: ParserErrorView,
    pub width: nat,
}

impl View for Fault {
    type V = FaultView;

    open spec fn view(&self) -> FaultView {
        FaultView { error: self.error@, width: self.width as nat }
    }
}

impl FaultView {
    /// The line that marks the faulty token under a prompt of one
    /// character: spaces up to its column, then a caret for each character
    /// of its text.
    pub open spec fn marker(self) -> Seq<char> {
        marker(self.error.loc().col, self.width)
    }
}

impl Fault {
    /// The line that marks the faulty token under a prompt of one
    /// character.
    pub fn marker(&self) -> (line: String)
        ensures
            line@ == self@.marker(),
    {
        caret_line(self.error.loc().col, self.width)
    }
}

/// What a line asks for.
#[derive(Debug)]
pub enum Command {
    Quit,
    Remind,
    List,
    Edit,
    Help,
    /// No command: the token that stands where one should.
    Invalid(Option<Token>),
}

/// A command as a mathematical value.
pub enum CommandView {
    Quit,
    Remind,
    List,
    Edit,
    Help,
    Invalid(Option<TokenView>),
}

impl View for Command {
    type V = CommandView;

    open spec fn view(&self) -> CommandView {
        match *self {
            Command::Quit => CommandView::Quit,
            Command::Remind => CommandView::Remind,
            Command::List => CommandView::List,
            Command::Edit => CommandView::Edit,
            Command::Help => CommandView::Help,
            Command::Invalid(Some(token)) => CommandView::Invalid(Some(token@)),
            Command::Invalid(None) => CommandView::Invalid(None),
        }
    }
}

/// The command that a line beginning with token `t` asks for: the keyword's
/// own, none where the line is empty, and otherwise an invalid one that
/// holds `t`.
pub open spec fn command_for(t: TokenView) -> Option<CommandView> {
    match t.kind {
        TokenKind::Quit => Some(CommandView::Quit),
        TokenKind::Remind => Some(CommandView::Remind),
        TokenKind::List => Some(CommandView::List),
        TokenKind::Edit => Some(CommandView::Edit),
        TokenKind::Help => Some(CommandView::Help),
        TokenKind::End => None,
        _ => Some(CommandView::Invalid(Some(t))),
    }
}

/// Takes one token, if one is still to come, and tells which command it
/// asks for.
pub fn get_command(lexer: &mut Lexer) -> (command: Option<Command>)
    requires
        old(lexer).wf(),
    ensures
        final(lexer).wf(),
        final(lexer)@ == old(lexer)@.after_next(),
        ({
            let ts = old(lexer)@.remaining();
            if ts.len() == 0 {
                command is None && final(lexer)@ == old(lexer)@
            } else {
                &&& final(lexer)@.remaining() == ts.drop_first()
                &&& match command {
                    Some(c) => command_for(ts[0]) == Some(c@),
                    None => command_for(ts[0]) is None,
                }
            }
        }),
{
    proof {
        lexer.lemma_remaining();
        lexer@.lemma_after_next();
    }
    match lexer.next() {
        Some(token) => match token.kind {
            TokenKind::Quit => Some(Command::Quit),
            TokenKind::Remind => Some(Command::Remind),
            TokenKind::List => Some(Command::List),
            TokenKind::Edit => Some(Command::Edit),
            TokenKind::Help => Some(Command::Help),
            TokenKind::End => None,
            _ => Some(Command::Invalid(Some(token))),
        },
        None => None,
    }
}

/// What a parser makes of the tokens still to come: a value or an error,
/// and how many of the tokens it takes.
pub struct Outcome<T> {
    pub result: Result<T, ParserErrorView>,
    pub used: nat,
}

/// What a reminder says: its summary and, if it has one, its description.
pub struct Wording {
    pub summary: Seq<char>,
    pub body: Option<Seq<char>>,
}

/// The summary of a reminder for a duration or a time of day that gives
/// none.
pub open spec fn default_summary() -> Seq<char> {
    "no summary provided"@
}

/// The summary of a reminder for a day of the week that gives none.
pub open spec fn default_day_summary() -> Seq<char> {
    "No summary provided"@
}

/// The error for token `t` where it stands at the beginning of a reminder
/// and is not of the expected kind.
pub open spec fn opening_error(t: TokenView, expected: TokenKind) -> ParserErrorView {
    match t.kind {
        TokenKind::UnclosedStr => ParserErrorView::UnclosedStr(t.loc, t.text),
        TokenKind::End => ParserErrorView::NoToken(t.loc),
        _ => ParserErrorView::UnexpectedToken(t.loc, t.kind, t.text, expected),
    }
}

/// `n` as an `i32`, and the greatest `i32` where `n` is too great for one.
pub open spec fn saturated(n: nat) -> i32 {
    if n <= i32::MAX {
        n as i32
    } else {
        i32::MAX
    }
}

/// The number of seconds that the number token `t` gives. A token whose
/// text is not the decimal notation of a `u32` is unexpected.
pub open spec fn seconds_in(t: TokenView) -> Result<u32, ParserErrorView> {
    match u32_of(t.text) {
        Some(n) => Ok(n),
        None => Err(ParserErrorView::UnexpectedToken(t.loc, t.kind, t.text, TokenKind::Num)),
    }
}

/// The number that token `t` gives where one of at most `max` is expected.
///
/// A token that is no number is unexpected, and so is one whose text is not
/// decimal notation. A number above `max` is invalid, however great it is;
/// the error holds it as far as an `i32` can.
pub open spec fn number_up_to(t: TokenView, max: u32) -> Result<u32, ParserErrorView> {
    if t.kind != TokenKind::Num || !is_decimal(t.text) {
        Err(ParserErrorView::UnexpectedToken(t.loc, t.kind, t.text, TokenKind::Num))
    } else if decimal_value(t.text) <= max {
        Ok(decimal_value(t.text) as u32)
    } else {
        Err(
            ParserErrorView::InvalidNum(
                t.loc,
                saturated(decimal_value(t.text)) as int,
                0,
                saturated(max as nat) as int,
            ),
        )
    }
}

/// The description that the tokens `ts` begin with: the text of a string,
/// and none for a token of any other kind, which is taken all the same, or
/// where no token is left. An unclosed string is an error.
pub open spec fn body_outcome(ts: Seq<TokenView>) -> Outcome<Option<Seq<char>>> {
    if ts.len() == 0 {
        Outcome { result: Ok(None), used: 0 }
    } else {
        match ts[0].kind {
            TokenKind::Str => Outcome { result: Ok(Some(ts[0].text)), used: 1 },
            TokenKind::UnclosedStr => Outcome {
                result: Err(ParserErrorView::UnclosedStr(ts[0].loc, ts[0].text)),
                used: 1,
            },
            _ => Outcome { result: Ok(None), used: 1 },
        }
    }
}

/// The wording that the tokens `ts` begin with: a string for the summary,
/// then the description. Where the input ends instead, the summary is
/// `default` and there is no description.
pub open spec fn wording_outcome(ts: Seq<TokenView>, default: Seq<char>) -> Outcome<Wording> {
    let t = ts[0];
    match t.kind {
        TokenKind::Str => {
            let body = body_outcome(ts.skip(1));
            Outcome {
                result: match body.result {
                    Ok(b) => Ok(Wording { summary: t.text, body: b }),
                    Err(e) => Err(e),
                },
                used: 1 + body.used,
            }
        },
        TokenKind::End => Outcome { result: Ok(Wording { summary: default, body: None }), used: 1 },
        TokenKind::UnclosedStr => Outcome {
            result: Err(ParserErrorView::UnclosedStr(t.loc, t.text)),
            used: 1,
        },
        _ => Outcome {
            result: Err(ParserErrorView::UnexpectedToken(t.loc, t.kind, t.text, TokenKind::Str)),
            used: 1,
        },
    }
}

/// The reminder for `when` whose wording follows the first `used` tokens of
/// `ts`.
pub open spec fn reminder_outcome(
    ts: Seq<TokenView>,
    used: nat,
    when: WhenView,
    default: Seq<char>,
) -> Outcome<ReminderView> {
    let wording = wording_outcome(ts.skip(used as int), default);
    Outcome {
        result: match wording.result {
            Ok(w) => Ok(ReminderView { summary: w.summary, body: w.body, when, done: false }),
            Err(e) => Err(e),
        },
        used: used + wording.used,
    }
}

/// A reminder after a number of seconds: the number, then the wording.
pub open spec fn duration_outcome(ts: Seq<TokenView>) -> Outcome<ReminderView> {
    if ts[0].kind != TokenKind::Num {
        Outcome { result: Err(opening_error(ts[0], TokenKind::Num)), used: 1 }
    } else {
        match seconds_in(ts[0]) {
            Err(e) => Outcome { result: Err(e), used: 1 },
            Ok(seconds) => reminder_outcome(
                ts,
                1,
                WhenView::Duration(seconds as nat),
                default_summary(),
            ),
        }
    }
}

/// A reminder at a time of day: an hour up to 12, a minute up to 59, then
/// the wording.
pub open spec fn time_outcome(ts: Seq<TokenView>) -> Outcome<ReminderView> {
    if ts[0].kind != TokenKind::Num {
        Outcome { result: Err(opening_error(ts[0], TokenKind::Num)), used: 1 }
    } else {
        match number_up_to(ts[0], 12) {
            Err(e) => Outcome { result: Err(e), used: 1 },
            Ok(hour) => match number_up_to(ts[1], 59) {
                Err(e) => Outcome { result: Err(e), used: 2 },
                Ok(minute) => reminder_outcome(
                    ts,
                    2,
                    WhenView::Time(hour as nat, minute as nat),
                    default_summary(),
                ),
            },
        }
    }
}

/// A reminder on a day of the week: a word that is exactly the code of a
/// day, an hour up to 12, a minute up to 59, then the wording.
pub open spec fn day_outcome(ts: Seq<TokenView>) -> Outcome<ReminderView> {
    if ts[0].kind != TokenKind::Str {
        Outcome { result: Err(opening_error(ts[0], TokenKind::Str)), used: 1 }
    } else if weekday_named(ts[0].text) is None {
        Outcome { result: Err(ParserErrorView::InvalidDay(ts[0].loc, ts[0].text)), used: 1 }
    } else {
        match number_up_to(ts[1], 12) {
            Err(e) => Outcome { result: Err(e), used: 2 },
            Ok(hour) => match number_up_to(ts[2], 59) {
                Err(e) => Outcome { result: Err(e), used: 3 },
                Ok(minute) => reminder_outcome(
                    ts,
                    3,
                    WhenView::Day(ts[0].text, hour as nat, minute as nat),
                    default_day_summary(),
                ),
            },
        }
    }
}

/// Whether `r` is the result that `outcome` holds.
pub open spec fn yields<T: View, E: View>(r: Result<T, E>, outcome: Result<T::V, E::V>) -> bool {
    match r {
        Ok(v) => outcome == Ok::<T::V, E::V>(v@),
        Err(e) => outcome == Err::<T::V, E::V>(e@),
    }
}

/// The fault that `outcome` holds, if it holds an error. The token that
/// an error is about is the last one of `ts` that was taken.
pub open spec fn fault_of<T>(ts: Seq<TokenView>, outcome: Outcome<T>) -> Option<FaultView> {
    match outcome.result {
        Ok(_) => None,
        Err(error) => Some(FaultView { error, width: ts[outcome.used - 1].text.len() }),
    }
}

/// Whether `r` is the result that `outcome` holds, with the width of the
/// faulty token where it is an error.
pub open spec fn marks<T: View>(
    r: Result<T, Fault>,
    ts: Seq<TokenView>,
    outcome: Outcome<T::V>,
) -> bool {
    match r {
        Ok(v) => outcome.result == Ok::<T::V, ParserErrorView>(v@),
        Err(f) => fault_of(ts, outcome) == Some(f@),
    }
}

/// How many characters the text of `token` has.
fn width_of(token: &Token) -> (width: usize)
    ensures
        width == token@.text.len(),
{
    token.text.as_str().unicode_len()
}

/// `n` as an `i32`, and the greatest `i32` where `n` is too great for one.
fn saturate(n: u64) -> (r: i32)
    ensures
        r == saturated(n as nat),
{
    if n <= 0x7fff_ffff {
        n as i32
    } else {
        0x7fff_ffff
    }
}

/// The fault for a token at the beginning of a reminder that is not of
/// the expected kind.
fn opening_fault(token: Token, expected: TokenKind) -> (f: Fault)
    ensures
        f@.error == opening_error(token@, expected),
        f@.width == token@.text.len(),
{
    let width = width_of(&token);
    let error = match token.kind {
        TokenKind::UnclosedStr => ParserError::UnclosedStr(token.loc, token.text),
        TokenKind::End => ParserError::NoToken(token.loc),
        _ => ParserError::UnexpectedToken(token.loc, token.kind, token.text, expected),
    };
    Fault { error, width }
}

/// The number of seconds that the number token `token` gives.
fn seconds_of(token: Token) -> (r: Result<u32, Fault>)
    ensures
        match r {
            Ok(n) => seconds_in(token@) == Ok::<u32, ParserErrorView>(n),
            Err(f) => seconds_in(token@) == Err::<u32, ParserErrorView>(f@.error) && f@.width
                == token@.text.len(),
        },
{
    match parse_u32(token.text.as_str()) {
        Some(n) => Ok(n),
        None => {
            let width = width_of(&token);
            Err(
                Fault {
                    error: ParserError::UnexpectedToken(
                        token.loc,
                        token.kind,
                        token.text,
                        TokenKind::Num,
                    ),
                    width,
                },
            )
        },
    }
}

/// The number that `token` gives where one of at most `max` is expected.
fn number_of(token: Token, max: u32) -> (r: Result<u32, Fault>)
    ensures
        match r {
            Ok(n) => number_up_to(token@, max) == Ok::<u32, ParserErrorView>(n),
            Err(f) => number_up_to(token@, max) == Err::<u32, ParserErrorView>(f@.error)
                && f@.width == token@.text.len(),
        },
{
    let width = width_of(&token);
    let found = if token.kind == TokenKind::Num {
        parse_decimal(token.text.as_str())
    } else {
        None
    };
    match found {
        None => Err(
            Fault {
                error: ParserError::UnexpectedToken(
                    token.loc,
                    token.kind,
                    token.text,
                    TokenKind::Num,
                ),
                width,
            },
        ),
        Some(n) => if n <= max as u64 {
            Ok(n as u32)
        } else {
            Err(
                Fault {
                    error: ParserError::InvalidNum(token.loc, saturate(n), 0, saturate(max as u64)),
                    width,
                },
            )
        },
    }
}

/// The first steps of a parser: the tokens still to come are well
/// terminated, taking one leaves the others, and taking up to three is
/// taking one after the other.
proof fn lemma_first_steps(start: LexerView)
    requires
        start.wf(),
    ensures
        well_terminated(start.remaining()),
        start.remaining().len() > 0 ==> start.remaining().drop_first() == start.remaining().skip(
            1,
        ),
        start.after(0) == start,
        start.after(1) == start.after_next(),
        start.after(2) == start.after(1).after_next(),
        start.after(3) == start.after(2).after_next(),
{
    start.lemma_after_next();
    assert(start.after(1) == start.after(0).after_next());
    if start.remaining().len() > 0 {
        assert(start.remaining().drop_first() =~= start.remaining().skip(1));
    }
}

/// Takes the tokens of a wording: the summary and the description.
fn parse_wording(lexer: &mut Lexer, default: &str) -> (r: Result<(String, Option<String>), Fault>)
    requires
        old(lexer).wf(),
        old(lexer)@.remaining().len() > 0,
    ensures
        final(lexer).wf(),
        ({
            let ts = old(lexer)@.remaining();
            let outcome = wording_outcome(ts, default@);
            &&& final(lexer)@ == old(lexer)@.after(outcome.used)
            &&& final(lexer)@.remaining() == ts.skip(outcome.used as int)
            &&& match r {
                Ok((summary, body)) => outcome.result == Ok::<Wording, ParserErrorView>(
                    Wording { summary: summary@, body: opt_text(body) },
                ),
                Err(f) => fault_of(ts, outcome) == Some(f@),
            }
        }),
{
    let ghost ts = lexer@.remaining();
    proof {
        lexer.lemma_remaining();
        lemma_first_steps(lexer@);
    }
    let summary = match lexer.expect_token(TokenKind::Str) {
        Ok(token) => token.text,
        Err(token) => match token.kind {
            TokenKind::End => {
                return Ok((default.to_owned(), None));
            },
            TokenKind::UnclosedStr => {
                let width = width_of(&token);
                return Err(
                    Fault { error: ParserError::UnclosedStr(token.loc, token.text), width },
                );
            },
            _ => {
                let width = width_of(&token);
                return Err(
                    Fault {
                        error: ParserError::UnexpectedToken(
                            token.loc,
                            token.kind,
                            token.text,
                            TokenKind::Str,
                        ),
                        width,
                    },
                );
            },
        },
    };
    proof {
        assert(ts.skip(1).len() > 0);
        assert(ts.skip(1)[0] == ts[1]);
        assert(ts.skip(1).drop_first() =~= ts.skip(2));
    }
    let body = match lexer.next() {
        Some(token) => match token.kind {
            TokenKind::Str => Some(token.text),
            TokenKind::UnclosedStr => {
                let width = width_of(&token);
                return Err(
                    Fault { error: ParserError::UnclosedStr(token.loc, token.text), width },
                );
            },
            _ => None,
        },
        None => None,
    };
    Ok((summary, body))
}

/// Takes the tokens of a wording and makes the reminder for `when` of it.
fn parse_reminder(lexer: &mut Lexer, when: When, default: &str) -> (r: Result<Reminder, Fault>)
    requires
        old(lexer).wf(),
        old(lexer)@.remaining().len() > 0,
    ensures
        final(lexer).wf(),
        ({
            let ts = old(lexer)@.remaining();
            let outcome = reminder_outcome(ts, 0, when@, default@);
            &&& final(lexer)@ == old(lexer)@.after(outcome.used)
            &&& final(lexer)@.remaining() == ts.skip(outcome.used as int)
            &&& marks(r, ts, outcome)
        }),
{
    proof {
        assert(lexer@.remaining().skip(0) =~= lexer@.remaining());
    }
    match parse_wording(lexer, default) {
        Ok((summary, body)) => Ok(Reminder::new(when, summary, body)),
        Err(f) => Err(f),
    }
}

/// What is made of the tokens behind the first `used` ones does not depend
/// on those, and taking `used` tokens and then the wording is taking them
/// all.
proof fn lemma_reminder_outcome_skip(
    start: LexerView,
    used: nat,
    when: WhenView,
    default: Seq<char>,
)
    requires
        used < start.remaining().len(),
    ensures
        ({
            let ts = start.remaining();
            let rest = ts.skip(used as int);
            let whole = reminder_outcome(ts, used, when, default);
            let inner = reminder_outcome(rest, 0, when, default);
            &&& whole.result == inner.result
            &&& whole.used == used + inner.used
            &&& fault_of(ts, whole) == fault_of(rest, inner)
            &&& rest.skip(inner.used as int) == ts.skip(whole.used as int)
            &&& start.after(used).after(inner.used) == start.after(whole.used)
        }),
{
    let ts = start.remaining();
    let rest = ts.skip(used as int);
    assert(rest.skip(0) =~= rest);
    let inner = reminder_outcome(rest, 0, when, default).used;
    assert(1 <= inner <= rest.len()) by {
        if rest[0].kind == TokenKind::Str {
            assert(body_outcome(rest.skip(1)).used <= rest.skip(1).len());
        }
    }
    assert(rest[inner - 1] == ts[used + inner - 1]);
    assert(rest.skip(inner as int) =~= ts.skip((used + inner) as int));
    start.lemma_after_after(used, inner);
}

/// Parses a reminder after a number of seconds; a fault holds the width
/// of the faulty token. The caller sees to it that a token is still to
/// come.
pub fn parse_duration_marked(lexer: &mut Lexer) -> (r: Result<Reminder, Fault>)
    requires
        old(lexer).wf(),
        old(lexer)@.remaining().len() > 0,
    ensures
        final(lexer).wf(),
        final(lexer)@ == old(lexer)@.after(duration_outcome(old(lexer)@.remaining()).used),
        final(lexer)@.remaining() == old(lexer)@.remaining().skip(
            duration_outcome(old(lexer)@.remaining()).used as int,
        ),
        marks(r, old(lexer)@.remaining(), duration_outcome(old(lexer)@.remaining())),
{
    let ghost start = lexer@;
    proof {
        lexer.lemma_remaining();
        lemma_first_steps(start);
    }
    let token = match lexer.expect_token(TokenKind::Num) {
        Ok(token) => token,
        Err(token) => {
            return Err(opening_fault(token, TokenKind::Num));
        },
    };
    let seconds = match seconds_of(token) {
        Ok(n) => n,
        Err(f) => {
            return Err(f);
        },
    };
    proof {
        lemma_reminder_outcome_skip(
            start,
            1,
            WhenView::Duration(seconds as nat),
            default_summary(),
        );
    }
    parse_reminder(lexer, When::Duration(seconds), "no summary provided")
}

/// Parses a reminder at a time of day; a fault holds the width of the
/// faulty token. The caller sees to it that a token is still to come.
pub fn parse_time_marked(lexer: &mut Lexer) -> (r: Result<Reminder, Fault>)
    requires
        old(lexer).wf(),
        old(lexer)@.remaining().len() > 0,
    ensures
        final(lexer).wf(),
        final(lexer)@ == old(lexer)@.after(time_outcome(old(lexer)@.remaining()).used),
        final(lexer)@.remaining() == old(lexer)@.remaining().skip(
            time_outcome(old(lexer)@.remaining()).used as int,
        ),
        marks(r, old(lexer)@.remaining(), time_outcome(old(lexer)@.remaining())),
{
    let ghost start = lexer@;
    let ghost ts = lexer@.remaining();
    proof {
        lexer.lemma_remaining();
        lemma_first_steps(start);
    }
    let token = match lexer.expect_token(TokenKind::Num) {
        Ok(token) => token,
        Err(token) => {
            return Err(opening_fault(token, TokenKind::Num));
        },
    };
    let hour = match number_of(token, 12) {
        Ok(n) => n,
        Err(f) => {
            return Err(f);
        },
    };
    proof {
        assert(ts.skip(1).drop_first() =~= ts.skip(2));
    }
    let token = lexer.next_token();
    let minute = match number_of(token, 59) {
        Ok(n) => n,
        Err(f) => {
            return Err(f);
        },
    };
    proof {
        lemma_reminder_outcome_skip(
            start,
            2,
            WhenView::Time(hour as nat, minute as nat),
            default_summary(),
        );
    }
    parse_reminder(lexer, When::Time(hour, minute), "no summary provided")
}

/// Parses a reminder on a day of the week; a fault holds the width of
/// the faulty token. The caller sees to it that a token is still to come.
pub fn parse_day_marked(lexer: &mut Lexer) -> (r: Result<Reminder, Fault>)
    requires
        old(lexer).wf(),
        old(lexer)@.remaining().len() > 0,
    ensures
        final(lexer).wf(),
        final(lexer)@ == old(lexer)@.after(day_outcome(old(lexer)@.remaining()).used),
        final(lexer)@.remaining() == old(lexer)@.remaining().skip(
            day_outcome(old(lexer)@.remaining()).used as int,
        ),
        marks(r, old(lexer)@.remaining(), day_outcome(old(lexer)@.remaining())),
{
    let ghost start = lexer@;
    let ghost ts = lexer@.remaining();
    proof {
        lexer.lemma_remaining();
        lemma_first_steps(start);
    }
    let token = match lexer.expect_token(TokenKind::Str) {
        Ok(token) => token,
        Err(token) => {
            return Err(opening_fault(token, TokenKind::Str));
        },
    };
    if Weekday::from_code(token.text.as_str()).is_none() {
        let width = width_of(&token);
        return Err(Fault { error: ParserError::InvalidDay(token.loc, token.text), width });
    }
    let day = token.text;
    proof {
        assert(ts.skip(1).drop_first() =~= ts.skip(2));
    }
    let token = lexer.next_token();
    let hour = match number_of(token, 12) {
        Ok(n) => n,
        Err(f) => {
            return Err(f);
        },
    };
    proof {
        assert(ts.skip(2).drop_first() =~= ts.skip(3));
    }
    let token = lexer.next_token();
    let minute = match number_of(token, 59) {
        Ok(n) => n,
        Err(f) => {
            return Err(f);
        },
    };
    proof {
        lemma_reminder_outcome_skip(
            start,
            3,
            WhenView::Day(day@, hour as nat, minute as nat),
            default_day_summary(),
        );
    }
    parse_reminder(lexer, When::Day(day, hour, minute), "No summary provided")
}

/// Parses a reminder after a number of seconds. The caller sees to it that
/// a token is still to come.
pub fn parse_duration(lexer: &mut Lexer) -> (r: Result<Reminder, ParserError>)
    requires
        old(lexer).wf(),
        old(lexer)@.remaining().len() > 0,
    ensures
        final(lexer).wf(),
        final(lexer)@ == old(lexer)@.after(duration_outcome(old(lexer)@.remaining()).used),
        final(lexer)@.remaining() == old(lexer)@.remaining().skip(
            duration_outcome(old(lexer)@.remaining()).used as int,
        ),
        yields(r, duration_outcome(old(lexer)@.remaining()).result),
{
    match parse_duration_marked(lexer) {
        Ok(reminder) => Ok(reminder),
        Err(f) => Err(f.error),
    }
}

/// Parses a reminder at a time of day. The caller sees to it that a token
/// is still to come.
pub fn parse_time(lexer: &mut Lexer) -> (r: Result<Reminder, ParserError>)
    requires
        old(lexer).wf(),
        old(lexer)@.remaining().len() > 0,
    ensures
        final(lexer).wf(),
        final(lexer)@ == old(lexer)@.after(time_outcome(old(lexer)@.remaining()).used),
        final(lexer)@.remaining() == old(lexer)@.remaining().skip(
            time_outcome(old(lexer)@.remaining()).used as int,
        ),
        yields(r, time_outcome(old(lexer)@.remaining()).result),
{
    match parse_time_marked(lexer) {
        Ok(reminder) => Ok(reminder),
        Err(f) => Err(f.error),
    }
}

/// Parses a reminder on a day of the week. The caller sees to it that a
/// token is still to come.
pub fn parse_day(lexer: &mut Lexer) -> (r: Result<Reminder, ParserError>)
    requires
        old(lexer).wf(),
        old(lexer)@.remaining().len() > 0,
    ensures
        final(lexer).wf(),
        final(lexer)@ == old(lexer)@.after(day_outcome(old(lexer)@.remaining()).used),
        final(lexer)@.remaining() == old(lexer)@.remaining().skip(
            day_outcome(old(lexer)@.remaining()).used as int,
        ),
        yields(r, day_outcome(old(lexer)@.remaining()).result),
{
    match parse_day_marked(lexer) {
        Ok(reminder) => Ok(reminder),
        Err(f) => Err(f.error),
    }
}

} // verus!
