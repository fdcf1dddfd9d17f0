//! What can go wrong, and how it is told.

use vstd::prelude::*;
use vstd::string::*;

verus! {

/// Why an operation on an engine failed.
#[derive(Debug)]
pub enum EngineError {
    /// The handle, or the engine behind it, is closed.
    Closed,
    /// The storage crate failed, with this message.
    Fjall(String),
}

impl EngineError {
    /// The message, as text.
    pub open spec fn text(&self) -> Seq<char> {
        match self {
            EngineError::Closed => "Keyspace is closed"@,
            EngineError::Fjall(message) => message@,
        }
    }

    /// The message that tells the error to a caller.
    pub fn to_string(&self) -> (message: String)
        ensures
            message@ == self.text(),
            match self {
                EngineError::Closed => message@ == "Keyspace is closed"@,
                EngineError::Fjall(text) => message@ == text@,
            },
    {
        match self {
            EngineError::Closed => String::from_str("Keyspace is closed"),
            EngineError::Fjall(message) => message.clone(),
        }
    }
}

/// An error says in words what happened: that the database is closed, or what the storage crate
/// said, as it said it.
pub proof fn an_error_tells_what_happened(e: EngineError, message: String)
    ensures
        e is Closed ==> e.text() == "Keyspace is closed"@,
        e == EngineError::Fjall(message) ==> e.text() == message@,
{
}

/// The reason that a caller is given for an error.
pub fn map_err(e: EngineError) -> (reason: String)
    ensures
        reason@ == e.text(),
        match e {
            EngineError::Closed => reason@ == "Keyspace is closed"@,
            EngineError::Fjall(text) => reason@ == text@,
        },
{
    e.to_string()
}

/// What the storage crate answered, with a failure turned into the library's own error.
pub fn answer<T>(reply: Result<T, String>) -> (result: Result<T, EngineError>)
    ensures
        match reply {
            Ok(value) => result == Ok::<T, EngineError>(value),
            Err(message) => result == Err::<T, EngineError>(EngineError::Fjall(message)),
        },
{
    match reply {
        Ok(value) => Ok(value),
        Err(message) => Err(EngineError::Fjall(message)),
    }
}

/// The message of a caught panic, from the two forms in which a panic carries one.
pub open spec fn panic_text(literal: Option<Seq<char>>, formatted: Option<Seq<char>>) -> Seq<
    char,
> {
    match literal {
        Some(text) => text,
        None => match formatted {
            Some(text) => text,
            None => "unknown panic"@,
        },
    }
}

/// The message of a panic is the one that it carries, whichever form it has; the literal comes
/// first, and only a panic that carries none is unknown.
pub proof fn a_panic_is_told_as_it_was_raised(
    literal: Option<Seq<char>>,
    formatted: Option<Seq<char>>,
)
    ensures
        literal matches Some(text) ==> panic_text(literal, formatted) == text,
        literal is None ==> (formatted matches Some(text) ==> panic_text(literal, formatted)
            == text),
        literal is None && formatted is None ==> panic_text(literal, formatted)
            == "unknown panic"@,
{
}

/// A human-readable message for a caught panic. A panic carries its message as a string literal
/// or as a formatted string, and possibly as neither.
pub fn panic_message(literal: Option<&str>, formatted: Option<&String>) -> (message: String)
    ensures
        message@ == panic_text(
            match literal {
                Some(text) => Some(text@),
                None => None,
            },
            match formatted {
                Some(text) => Some(text@),
                None => None,
            },
        ),
        match (literal, formatted) {
            (Some(text), _) => message@ == text@,
            (None, Some(text)) => message@ == text@,
            (None, None) => message@ == "unknown panic"@,
        },
{
    match literal {
        Some(text) => String::from_str(text),
        None => match formatted {
            Some(text) => text.clone(),
            None => String::from_str("unknown panic"),
        },
    }
}

/// The reason that a caller is given when a background task panicked.
pub fn panic_reason(message: &str) -> (reason: String)
    ensures
        reason@ == "fjall: internal error in background task: "@ + message@,
{
    let mut reason = String::from_str("fjall: internal error in background task: ");
    reason.append(message);
    reason
}

/// The line that is logged when the background task `task` panicked.
pub fn panic_log_line(task: &str, message: &str) -> (line: String)
    ensures
        line@ == "fjall: caught panic in "@ + task@ + " background task: "@ + message@,
{
    let mut line = String::from_str("fjall: caught panic in ");
    line.append(task);
    line.append(" background task: ");
    line.append(message);
    line
}

} // verus!
