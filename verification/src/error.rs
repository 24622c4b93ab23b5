//! The ways a transfer can fail.

use vstd::prelude::*;
use vstd::string::StringExecFns;

verus! {

/// Why a transfer stopped before it completed.
#[derive(Clone, Copy, Debug, PartialEq, Eq, Structural)]
pub enum TransferError {
    /// The input does not exist. Raised before any stream is opened.
    NotFound,
    /// The source failed while it was being read.
    ReadError,
    /// The sink failed while it was being written or flushed.
    WriteError,
    /// The decoder rejected the compressed stream.
    CodecError,
}

impl TransferError {
    /// Whether the failure arose on the sink's side of the transfer.
    ///
    /// A rejected gzip stream counts: the decoder is part of the sink.
    pub open spec fn write_class(self) -> bool {
        self is WriteError || self is CodecError
    }

    /// The text shown to the user for this failure.
    pub open spec fn text(self) -> Seq<char> {
        match self {
            TransferError::NotFound => "Input file not found"@,
            TransferError::ReadError => "Failed to read from the input"@,
            TransferError::WriteError => "Failed to write to the output"@,
            TransferError::CodecError => "Input is not a valid gzip stream"@,
        }
    }

    /// Whether the failure arose on the sink's side of the transfer.
    pub fn is_write_class(&self) -> (b: bool)
        ensures
            b == self.write_class(),
    {
        match self {
            TransferError::WriteError => true,
            TransferError::CodecError => true,
            _ => false,
        }
    }

    /// The text shown to the user for this failure.
    pub fn message(&self) -> (s: String)
        ensures
            s@ == self.text(),
    {
        match self {
            TransferError::NotFound => String::from_str("Input file not found"),
            TransferError::ReadError => String::from_str("Failed to read from the input"),
            TransferError::WriteError => String::from_str("Failed to write to the output"),
            TransferError::CodecError => String::from_str("Input is not a valid gzip stream"),
        }
    }
}

/// The process exit status for the outcome of a run: zero for success, one
/// for every failure.
pub open spec fn exit_status(outcome: Result<(), TransferError>) -> i32 {
    match outcome {
        Ok(_) => 0i32,
        Err(_) => 1i32,
    }
}

/// Computes the process exit status for the outcome of a run.
pub fn exit_code(outcome: &Result<(), TransferError>) -> (code: i32)
    ensures
        code == exit_status(*outcome),
        code == 0 <==> *outcome is Ok,
{
    match outcome {
        Ok(_) => 0,
        Err(_) => 1,
    }
}

} // verus!
