//! What can go wrong in the protocol.

use vstd::prelude::*;

verus! {

/// A fault of the protocol, as reported to whoever started the operation.
#[derive(Debug, Clone, Copy, PartialEq, Eq, Structural)]
pub enum ProtocolError {
    /// A request or a reply does not have the expected shape: a roster whose
    /// count differs from its length, or a value that is no decimal number.
    MalformedRequest,
    /// An outbound call to the client with this identifier did not complete.
    PeerUnreachable(u32),
}

} // verus!
