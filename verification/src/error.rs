//! The errors that the storage core reports.

use vstd::prelude::*;

verus! {

/// The outcome of an operation of the storage core.
pub type HtResult<T> = Result<T, HtError>;

/// What went wrong.
#[derive(Debug)]
pub enum HtError {
    /// The file system refused or failed an operation; the text is its message.
    Io(String),
    /// Bytes that should hold a row, a key or a table do not.
    FileIntegrity(String),
    /// The library was used in a way that it does not support.
    Misc(String),
}

impl HtError {
    /// A usage error with the message `msg`.
    pub fn misc(msg: &str) -> (r: HtError)
        ensures
            r matches HtError::Misc(text) && text@ == msg@,
    {
        HtError::Misc(msg.to_owned())
    }

    /// An integrity error with the message `msg`.
    pub fn file_integrity(msg: &str) -> (r: HtError)
        ensures
            r matches HtError::FileIntegrity(text) && text@ == msg@,
    {
        HtError::FileIntegrity(msg.to_owned())
    }

    /// An error of the file system with the message `msg`.
    pub fn io(msg: &str) -> (r: HtError)
        ensures
            r matches HtError::Io(text) && text@ == msg@,
    {
        HtError::Io(msg.to_owned())
    }
}

} // verus!
