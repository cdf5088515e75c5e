//! The older error type for reading EditorConfig files.

use vstd::prelude::*;

verus! {

/// Possible errors that can occur while reading EditorConfig files.
#[derive(Debug)]
pub enum ReadError {
    /// End-of-file was reached.
    Eof,
    /// An IO read failure occurred, described by its message.
    Io(String),
    /// An invalid line was read.
    InvalidLine,
}

} // verus!
