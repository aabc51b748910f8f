//! The ways in which a transformation can fail.

use vstd::prelude::*;

verus! {

/// Why a text could not be transformed. Every failure is final: no partial
/// output is handed back.
#[derive(Clone, Copy, Debug, PartialEq, Eq, Structural)]
pub enum AnsiError {
    /// What was given is not exactly one quoted text.
    InvalidArgument,
    /// A `$` is the last byte of the text, or the byte after it is neither
    /// `$` nor `{`.
    UnterminatedEscape,
    /// A style specifier holds a name that the style table does not know.
    UnknownStyleToken,
}

impl AnsiError {
    /// The sentence that describes this failure.
    pub open spec fn message_text(self) -> Seq<char> {
        match self {
            AnsiError::InvalidArgument =>
                "ansi_string requires a string literal as its only argument"@,
            AnsiError::UnterminatedEscape =>
                "Found escaping character $ without being followed by either $ or {"@,
            AnsiError::UnknownStyleToken => "Unknown style type"@,
        }
    }

    /// A human-readable description of the failure.
    pub fn message(&self) -> (text: String)
        ensures
            text@ == self.message_text(),
    {
        match self {
            AnsiError::InvalidArgument =>
                "ansi_string requires a string literal as its only argument".to_owned(),
            AnsiError::UnterminatedEscape =>
                "Found escaping character $ without being followed by either $ or {".to_owned(),
            AnsiError::UnknownStyleToken => "Unknown style type".to_owned(),
        }
    }
}

} // verus!
