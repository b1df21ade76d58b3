//! Reminders typed as short directives: a located lexer, a small
//! recursive-descent parser, and the rules that decide when a reminder is due.

pub mod cli;
pub mod clock;
pub mod lexer;
pub mod parser;
pub mod reminder;
pub mod schedule;
pub mod shell;
pub mod stream;
pub mod text;

pub use crate::clock::{Date, Moment, Time, Weekday};
pub use crate::reminder::{Reminder, When};
