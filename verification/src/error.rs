//! The error type shared by every conversion operation.

use vstd::prelude::*;

verus! {

/// Common error type for all conversion operations.
#[derive(Debug)]
pub enum FormatError {
    /// Failure while reading or writing files; raised only by callers that
    /// perform I/O, never by the conversion functions themselves.
    IoError(String),
    /// The input text does not conform to the claimed source format.
    ParseError(String),
    /// The value cannot be represented in the target format.
    SerializationError(String),
    /// An unrecognized or unsupported format tag.
    InvalidFormat(String),
    /// Fallback for unexpected failures.
    UnknownError(String),
}

impl FormatError {
    /// The human-readable rendering of the error: a fixed prefix naming the
    /// kind, then the carried message.
    pub fn message(&self) -> (r: String)
        ensures
            r@ == self.prefix() + self.msg(),
    {
        let mut s: String;
        match self {
            FormatError::IoError(m) => {
                s = String::from_str("IO Error: ");
                s.append(m.as_str());
            },
            FormatError::ParseError(m) => {
                s = String::from_str("Parse Error: ");
                s.append(m.as_str());
            },
            FormatError::SerializationError(m) => {
                s = String::from_str("Serialization Error: ");
                s.append(m.as_str());
            },
            FormatError::InvalidFormat(m) => {
                s = String::from_str("Invalid Format: ");
                s.append(m.as_str());
            },
            FormatError::UnknownError(m) => {
                s = String::from_str("Unknown Error: ");
                s.append(m.as_str());
            },
        }
        s
    }

    /// The prefix that `message` puts before the carried text.
    pub open spec fn prefix(&self) -> Seq<char> {
        match self {
            FormatError::IoError(_) => "IO Error: "@,
            FormatError::ParseError(_) => "Parse Error: "@,
            FormatError::SerializationError(_) => "Serialization Error: "@,
            FormatError::InvalidFormat(_) => "Invalid Format: "@,
            FormatError::UnknownError(_) => "Unknown Error: "@,
        }
    }

    /// The message carried by any of the variants.
    pub open spec fn msg(&self) -> Seq<char> {
        match self {
            FormatError::IoError(m) => m@,
            FormatError::ParseError(m) => m@,
            FormatError::SerializationError(m) => m@,
            FormatError::InvalidFormat(m) => m@,
            FormatError::UnknownError(m) => m@,
        }
    }
}

} // verus!
