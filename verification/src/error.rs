//! Error values returned by the terminal-control operations.

use vstd::prelude::*;

verus! {

/// A transport-level failure: a write to or read from the byte channel, or a
/// device attribute operation, could not be carried out. The payload is a
/// short human-readable description.
#[derive(Debug, Clone, Copy, PartialEq, Eq)]
pub struct Error(pub &'static str);

/// A failure of the cursor-position query protocol: the bytes were read
/// successfully but did not satisfy the expected reply grammar
/// `ESC '[' row ';' col 'R'`.
#[derive(Debug, Clone, Copy, PartialEq, Eq)]
pub enum ProtocolError {
    /// Fewer than 6 bytes were read; 6 is the length of the shortest
    /// well-formed reply.
    ShortResponse,
    /// The reply was long enough but its framing was wrong, or its payload
    /// did not split into exactly two fields.
    MalformedResponse,
    /// A field of the payload failed unsigned integer parsing.
    NotNumeric,
}

} // verus!
