//! Error types of the crate.

use vstd::prelude::*;

verus! {

/// Indicates an issue when trying to create a terminal-settings handle.
/// You can safely ignore the error variant for most applications on a result
/// with this return type, as it is effectively guaranteed not to happen.
#[derive(Debug, Clone, Copy, PartialEq, Eq, PartialOrd, Ord, Structural)]
pub enum TermsetCreationError {
    /// Raised when `STDIN_FILENO` is not a valid file descriptor.
    BadFileDescriptor,
    /// Raised when `STDIN_FILENO` is not a terminal file descriptor.
    NotATerminal,
}

/// Indicates that a message could not be framed for the datagram transport.
#[derive(Debug, Clone, Copy, PartialEq, Eq, PartialOrd, Ord, Structural)]
pub enum FrameError {
    /// The message, together with its header, would not fit in the
    /// transport's 16-bit length field.
    TooLarge,
}

} // verus!
