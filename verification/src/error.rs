//! Errors reported by the editor.

use vstd::prelude::*;

verus! {

/// Everything that can go wrong while parsing or running a command.
///
/// `Io` is never produced by the verified core: it stands for a failure of an
/// external display or file sink, reported by the caller that performs the
/// actual I/O.
#[derive(Clone, Copy, Debug, Eq, PartialEq)]
pub enum Error {
    /// A malformed or out-of-range address or range.
    InvalidAddress,
    /// An unrecognized command verb.
    InvalidCommand,
    /// No command verb was found on the input line.
    NoCommand,
    /// A write was requested but no filename was ever supplied.
    NoFilename,
    /// A display or file-sink operation failed.
    Io,
}

impl Error {
    /// A short human-readable description of the error.
    pub fn description(&self) -> (r: &'static str)
        ensures
            match self {
                Error::InvalidAddress => r@ == "Invalid address"@,
                Error::InvalidCommand => r@ == "Invalid command"@,
                Error::NoCommand => r@ == "No command provided"@,
                Error::NoFilename => r@ == "No current filename"@,
                Error::Io => r@ == "I/O error"@,
            },
    {
        match self {
            Error::InvalidAddress => "Invalid address",
            Error::InvalidCommand => "Invalid command",
            Error::NoCommand => "No command provided",
            Error::NoFilename => "No current filename",
            Error::Io => "I/O error",
        }
    }
}

} // verus!
