//! Errors reported while parsing EditorConfig data.

use vstd::prelude::*;

verus! {

/// Possible errors that can occur while parsing EditorConfig data.
#[derive(Debug)]
pub enum ParseError {
    /// End-of-file was reached.
    Eof,
    /// An IO read failure occurred, described by its message.
    Io(String),
    /// An invalid line was read.
    InvalidLine,
    /// An empty character class was found in a section header.
    EmptyCharClass,
}

impl ParseError {
    /// A short description of the error.
    pub fn message(&self) -> (r: &'static str)
        ensures
            self is Eof ==> r@ == "end of data"@,
            self is InvalidLine ==> r@ == "invalid line"@,
            self is EmptyCharClass ==> r@ == "empty char class"@,
            self is Io ==> r@ == "io failure"@,
    {
        match self {
            ParseError::Eof => "end of data",
            ParseError::Io(_) => "io failure",
            ParseError::InvalidLine => "invalid line",
            ParseError::EmptyCharClass => "empty char class",
        }
    }
}

/// All errors that can occur during operation.
#[derive(Debug)]
pub enum Error {
    /// An error occurred during parsing.
    Parse(ParseError),
    /// An error occurred during parsing of a file: its path, the line
    /// number, and the error.
    InFile(String, usize, ParseError),
    /// The current working directory is invalid, described by its message.
    InvalidCwd(String),
}

} // verus!
