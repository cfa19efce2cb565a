//! The failures of compiling a script.

use vstd::prelude::*;
use vstd::string::StringExecFns;

verus! {

/// Why a line of a script was refused. Each failure carries the text of the
/// line.
#[derive(Debug, PartialEq, Eq)]
pub enum Error {
    /// The line is no command: its first word is no keyword, or the keyword
    /// does not stand with the words that it takes.
    UnknownCommandError(String),
    /// The line is a command whose argument is no 32-bit integer in decimal.
    ArgumentParseError(String),
}

/// An [`Error`] with the text of its line as a sequence of characters.
pub enum ErrorView {
    UnknownCommandError(Seq<char>),
    ArgumentParseError(Seq<char>),
}

impl View for Error {
    type V = ErrorView;

    open spec fn view(&self) -> ErrorView {
        match self {
            Error::UnknownCommandError(line) => ErrorView::UnknownCommandError(line@),
            Error::ArgumentParseError(line) => ErrorView::ArgumentParseError(line@),
        }
    }
}

impl ErrorView {
    /// The text of the line that failed.
    pub open spec fn line(self) -> Seq<char> {
        match self {
            ErrorView::UnknownCommandError(line) => line,
            ErrorView::ArgumentParseError(line) => line,
        }
    }

    /// The message that describes the failure to a reader.
    pub open spec fn message(self) -> Seq<char> {
        match self {
            ErrorView::UnknownCommandError(line) => "UnknownCommandError at: "@ + line,
            ErrorView::ArgumentParseError(line) => "ArgumentParseError at: "@ + line,
        }
    }
}

impl Error {
    /// The message that describes the failure to a reader: the kind of the
    /// failure, then the line.
    pub fn message(&self) -> (text: String)
        ensures
            text@ == self@.message(),
    {
        match self {
            Error::UnknownCommandError(line) => {
                String::from_str("UnknownCommandError at: ").concat(line.as_str())
            },
            Error::ArgumentParseError(line) => {
                String::from_str("ArgumentParseError at: ").concat(line.as_str())
            },
        }
    }
}

} // verus!
