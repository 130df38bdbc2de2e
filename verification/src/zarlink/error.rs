//! The error type of the first take on the protocol.

use vstd::prelude::*;
use crate::error::JsonError;

verus! {

/// The error type.
#[derive(Debug)]
pub enum Error {
    /// An error occurred while reading from the socket.
    SocketRead,
    /// An error occurred while writing to the socket.
    SocketWrite,
    /// Buffer overflow.
    BufferOverflow,
    /// Error serializing or deserializing to/from JSON.
    Json(JsonError),
}

/// The result type.
pub type Result<T> = core::result::Result<T, Error>;

} // verus!
