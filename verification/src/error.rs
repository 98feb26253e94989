//! The failures that message processing can report.

use vstd::prelude::*;

verus! {

/// Why a message could not be encoded, decoded or answered.
#[derive(Clone, Copy, Debug, PartialEq, Eq, Structural)]
pub enum DnsError {
    /// The buffer ends before the structure that is being read does.
    Truncated,
    /// A domain name has an empty interior label, or is not valid UTF-8.
    InvalidName,
    /// A chain of compression pointers returns to an offset it has already visited.
    MalformedCompression,
    /// Neither an answer nor an authority record came out of any question.
    NoAnswerable,
}

impl DnsError {
    /// A short description of the failure.
    pub fn message(&self) -> (text: String)
        ensures
            text@ == match *self {
                DnsError::Truncated => "Message is truncated"@,
                DnsError::InvalidName => "Invalid domain name"@,
                DnsError::MalformedCompression => "Malformed name compression"@,
                DnsError::NoAnswerable => "No questions could be answered."@,
            },
    {
        match self {
            DnsError::Truncated => "Message is truncated".to_string(),
            DnsError::InvalidName => "Invalid domain name".to_string(),
            DnsError::MalformedCompression => "Malformed name compression".to_string(),
            DnsError::NoAnswerable => "No questions could be answered.".to_string(),
        }
    }
}

} // verus!
