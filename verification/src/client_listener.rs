//! Classification of what the control-channel listener can receive.  The
//! listening thread itself is socket work owned by the application shell;
//! what the library fixes is which conditions end the listener for good.

use vstd::prelude::*;

verus! {

/// Why the control-channel listener stopped handing messages on.
#[derive(Clone, Copy, PartialEq, Eq, Structural, Debug)]
pub enum ClientListenerError {
    /// The peer closed the connection.
    Closed,
    /// The connection broke underneath the listener.
    Broken,
    /// A frame arrived that is not a message of the protocol.
    UnexpectedPacket,
}

impl ClientListenerError {
    /// Whether the condition ends the listener: a closed or broken
    /// connection does, a single unexpected frame does not.
    pub fn is_fatal(&self) -> (r: bool)
        ensures
            r == (*self == ClientListenerError::Closed || *self == ClientListenerError::Broken),
    {
        match *self {
            ClientListenerError::Closed => true,
            ClientListenerError::Broken => true,
            ClientListenerError::UnexpectedPacket => false,
        }
    }
}

} // verus!
