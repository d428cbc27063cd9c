//! What can end a call before its time.
use vstd::prelude::*;

verus! {

/// Why the setting up of a session, or the reading of a line, did not
/// succeed. A transport's own error is handed on as it came.
#[derive(Debug, PartialEq, Eq)]
pub enum EditorError<RE, WE> {
    /// The transport failed to read.
    ReadError(RE),
    /// The transport failed to write or to flush.
    WriteError(WE),
    /// The display's answer to the probe was malformed.
    ParserError,
    /// The user gave the line up.
    Aborted,
}

impl<RE, WE> EditorError<RE, WE> {
    /// A failed read as the outcome of a call.
    pub fn read_error<T>(err: RE) -> (outcome: Result<T, Self>)
        ensures
            outcome == Err::<T, Self>(EditorError::ReadError(err)),
    {
        Err(EditorError::ReadError(err))
    }

    /// A failed write as the outcome of a call.
    pub fn write_error<T>(err: WE) -> (outcome: Result<T, Self>)
        ensures
            outcome == Err::<T, Self>(EditorError::WriteError(err)),
    {
        Err(EditorError::WriteError(err))
    }
}

} // verus!
