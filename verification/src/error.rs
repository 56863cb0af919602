//! The closed set of failures a ranking call or a conversion can report.

use vstd::prelude::*;

verus! {

/// Why a ranking request or a conversion failed.
#[derive(Clone, Copy, Debug, PartialEq, Eq, Structural)]
pub enum RankError {
    /// The API key cannot be encoded as a request header value.
    InvalidKey,
    /// The configured timeout elapsed before the service responded.
    Timeout,
    /// The request could not be sent, or the connection failed.
    Transport,
    /// The response body could not be decoded into a batch result.
    Decode,
    /// A single-entry projection was asked of a batch with no entries.
    NoResponse,
}

impl RankError {
    /// A human-readable description of the failure.
    pub fn message(&self) -> (m: String)
        ensures
            m@ == match *self {
                RankError::InvalidKey => "invalid API key"@,
                RankError::Timeout => "request timed out"@,
                RankError::Transport => "transport failure"@,
                RankError::Decode => "malformed response body"@,
                RankError::NoResponse => "no response found"@,
            },
    {
        match self {
            RankError::InvalidKey => String::from_str("invalid API key"),
            RankError::Timeout => String::from_str("request timed out"),
            RankError::Transport => String::from_str("transport failure"),
            RankError::Decode => String::from_str("malformed response body"),
            RankError::NoResponse => String::from_str("no response found"),
        }
    }
}

} // verus!
