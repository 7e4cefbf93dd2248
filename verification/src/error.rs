//! The ways in which reading, decoding or disassembling a trace can fail.

use vstd::prelude::*;

verus! {

/// A failure that ends the run.
#[derive(Debug, PartialEq, Eq, Clone, Copy, Structural)]
pub enum Error {
    /// The store could not be reached, or broke its protocol.
    StoreUnavailable,
    /// The key exists in the store but does not hold a list.
    TypeMismatch,
    /// The key does not exist in the store.
    NotFound,
    /// An indexed read was out of range, or the store call behind it failed.
    ReadFailure,
    /// A record is shorter than its header, or its mode or privilege byte is
    /// not one of the known values.
    MalformedRecord,
    /// The decoder rejected the instruction bytes.
    Disassembly,
}

impl Error {
    /// The text shown to the user for each failure.
    pub open spec fn message_of(self) -> Seq<char> {
        match self {
            Error::StoreUnavailable => "Cache error: store unavailable"@,
            Error::TypeMismatch => "Application error: cached basic block data is not a list"@,
            Error::NotFound => "Application error: cached basic block data does not exist"@,
            Error::ReadFailure => "Cache error: read failure"@,
            Error::MalformedRecord => "Application error: malformed basic block record"@,
            Error::Disassembly => "Disassembly error: instruction bytes rejected"@,
        }
    }

    /// The diagnostic printed when the failure reaches the top level.
    pub fn message(&self) -> (s: &'static str)
        ensures
            s@ == self.message_of(),
    {
        match self {
            Error::StoreUnavailable => "Cache error: store unavailable",
            Error::TypeMismatch => "Application error: cached basic block data is not a list",
            Error::NotFound => "Application error: cached basic block data does not exist",
            Error::ReadFailure => "Cache error: read failure",
            Error::MalformedRecord => "Application error: malformed basic block record",
            Error::Disassembly => "Disassembly error: instruction bytes rejected",
        }
    }
}

} // verus!
