//! The failures that the library reports.

use vstd::prelude::*;
use vstd::string::StringExecFns;

verus! {

/// A failure, with the text that describes it.
#[derive(Debug, Clone, PartialEq, Eq)]
pub enum Error {
    /// A value read from the store could not be understood.
    DbRetrievalError(String),
    /// A record from the wire is no valid completion chunk.
    JsonParseError(String),
    /// A channel was closed before its last item arrived.
    ChannelError(String),
    /// A value given on the command line cannot be used.
    CliError(String),
    /// A frame from the relay could not be understood.
    CommunicationError(String),
    /// Any other failure.
    Other(String),
}

impl Error {
    /// The text that was given when the failure was made.
    pub open spec fn detail(self) -> Seq<char> {
        match self {
            Error::DbRetrievalError(s) => s@,
            Error::JsonParseError(s) => s@,
            Error::ChannelError(s) => s@,
            Error::CliError(s) => s@,
            Error::CommunicationError(s) => s@,
            Error::Other(s) => s@,
        }
    }

    /// What stands before the detail when the failure is shown.
    pub open spec fn preamble(self) -> Seq<char> {
        match self {
            Error::DbRetrievalError(_) => "Error attempting to handle database value: "@,
            Error::JsonParseError(_) => "Error when processing json: "@,
            Error::ChannelError(_) => "Channel error: "@,
            Error::CliError(_) => ""@,
            Error::CommunicationError(_) => "Error when communicating with daemon: "@,
            Error::Other(_) => ""@,
        }
    }

    /// The failure as it is shown to the user.
    pub fn message(&self) -> (r: String)
        ensures
            r@ == self.preamble() + self.detail(),
    {
        match self {
            Error::DbRetrievalError(s) => "Error attempting to handle database value: ".to_owned().concat(
                s.as_str(),
            ),
            Error::JsonParseError(s) => "Error when processing json: ".to_owned().concat(s.as_str()),
            Error::ChannelError(s) => "Channel error: ".to_owned().concat(s.as_str()),
            Error::CliError(s) => "".to_owned().concat(s.as_str()),
            Error::CommunicationError(s) => "Error when communicating with daemon: ".to_owned().concat(
                s.as_str(),
            ),
            Error::Other(s) => "".to_owned().concat(s.as_str()),
        }
    }
}

} // verus!
