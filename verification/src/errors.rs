//! The error kinds of the engine.
use vstd::prelude::*;
use vstd::string::*;
use crate::text::concat;

verus! {

/// What can go wrong while a file is inspected or a run is driven.
#[derive(Debug, Clone)]
pub enum NativeError {
    /// An operating-system level read or stat failure, with its message.
    Io(String),
    /// A text could not be decoded.
    Encoding(String),
    /// The content hash could not be computed.
    Hashing(String),
    /// The run was cancelled; never reported to the consumer as a failure.
    Cancelled,
    /// Anything else.
    Other(String),
}

/// The mathematical value of a [`NativeError`].
pub ghost enum ErrorModel {
    Io(Seq<char>),
    Encoding(Seq<char>),
    Hashing(Seq<char>),
    Cancelled,
    Other(Seq<char>),
}

impl View for NativeError {
    type V = ErrorModel;

    open spec fn view(&self) -> ErrorModel {
        match *self {
            NativeError::Io(m) => ErrorModel::Io(m@),
            NativeError::Encoding(m) => ErrorModel::Encoding(m@),
            NativeError::Hashing(m) => ErrorModel::Hashing(m@),
            NativeError::Cancelled => ErrorModel::Cancelled,
            NativeError::Other(m) => ErrorModel::Other(m@),
        }
    }
}

/// The text a caller sees for an error.
pub open spec fn error_text(e: NativeError) -> Seq<char> {
    match e {
        NativeError::Io(m) => "I/O error: "@ + m@,
        NativeError::Encoding(m) => "Encoding error: "@ + m@,
        NativeError::Hashing(m) => "Hashing error: "@ + m@,
        NativeError::Cancelled => "Traversal aborted"@,
        NativeError::Other(m) => "Unexpected error: "@ + m@,
    }
}

impl NativeError {
    /// Renders the error as the text shown to a caller.
    pub fn message(&self) -> (s: String)
        ensures
            s@ == error_text(*self),
    {
        match self {
            NativeError::Io(m) => concat("I/O error: ", m.as_str()),
            NativeError::Encoding(m) => concat("Encoding error: ", m.as_str()),
            NativeError::Hashing(m) => concat("Hashing error: ", m.as_str()),
            NativeError::Cancelled => String::from_str("Traversal aborted"),
            NativeError::Other(m) => concat("Unexpected error: ", m.as_str()),
        }
    }

    /// Whether the error is the cancellation marker.
    pub fn is_cancelled(&self) -> (b: bool)
        ensures
            b == (*self is Cancelled),
    {
        match self {
            NativeError::Cancelled => true,
            _ => false,
        }
    }
}

} // verus!
