//! The log line: every message goes to stderr as `fm350d: <text>`, whatever
//! its level (the level only sorts messages for now).
use crate::text::push_str;
use vstd::prelude::*;

verus! {

/// Log level.
#[derive(Debug, Clone, Copy, PartialEq, Eq, Structural)]
pub enum Level {
    /// Ordinary state changes (dialled, address changed, recovery ran).
    Info,
    /// Worth the user's attention without stopping anything (failed probe,
    /// interface conflict).
    Warn,
}

/// Prefix of every log line.
pub const PREFIX: &'static str = "fm350d";

/// The line written for a message, at either level.
pub fn log_line(level: Level, msg: &str) -> (r: String)
    ensures
        r@ == PREFIX@ + ": "@ + msg@,
{
    let mut s = String::new();
    match level {
        Level::Info | Level::Warn => {
            push_str(&mut s, PREFIX);
            push_str(&mut s, ": ");
            push_str(&mut s, msg);
        },
    }
    assert(Seq::<char>::empty() + PREFIX@ == PREFIX@);
    s
}

} // verus!
