//! Messages shown to the user under the text.
use vstd::prelude::*;

verus! {

/// How a message is shown.
#[derive(Debug, Clone, Copy, PartialEq, Eq)]
pub enum LogColor {
    Default,
    Info,
    Hint,
    Warning,
    Error,
    Todo,
}

/// A message for the user.
pub struct Log {
    pub message: String,
    pub color: LogColor,
}

impl Log {
    /// A message with the given text.
    pub fn new(message: &str, color: LogColor) -> (r: Log)
        ensures
            r.message@ == message@,
            r.color == color,
    {
        Log { message: message.to_owned(), color }
    }
}

} // verus!
