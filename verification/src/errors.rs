//! What can go wrong while delivering frames to the collector.

use vstd::prelude::*;
use vstd::string::*;

verus! {

/// A transport failure. Each one leaves the frame that met it at the head
/// of the queue, to be tried again by the next flush.
#[derive(Debug, Clone, Copy, PartialEq, Eq, Structural)]
pub enum CollectorError {
    /// No connection to the collector could be opened.
    UnableToConnect,
    /// A frame could not be written to the connection.
    UnableToSend,
    /// No valid acknowledgment came back for a frame that was written.
    UnableToReceive,
}

impl CollectorError {
    /// The text that describes the error.
    pub open spec fn message_spec(self) -> Seq<char> {
        match self {
            CollectorError::UnableToConnect => "Failed to connect to server"@,
            CollectorError::UnableToSend => "Failed to send data"@,
            CollectorError::UnableToReceive => "Failed to receive data"@,
        }
    }

    /// The text that describes the error.
    pub fn message(&self) -> (text: String)
        ensures
            text@ == self.message_spec(),
    {
        match self {
            CollectorError::UnableToConnect => String::from_str("Failed to connect to server"),
            CollectorError::UnableToSend => String::from_str("Failed to send data"),
            CollectorError::UnableToReceive => String::from_str("Failed to receive data"),
        }
    }
}

} // verus!
