//! The decisions of a Varlink connection: how messages are framed on the wire, how the buffers
//! that hold them grow, and how many replies a chain of calls waits for.
//!
//! Messages travel as JSON texts, each followed by a NUL byte. The socket I/O itself is left to
//! the caller, which hands these types the bytes it read and takes from them the bytes to write.

pub mod framing;
pub use framing::{BUFFER_SIZE, MAX_BUFFER_SIZE};

mod heap;

pub mod read;
pub use read::ReadBuffer;

pub mod write;
pub use write::WriteBuffer;

pub mod chain;

pub use chain::{Chain, Replies, ReplyOutcome, ReplyStream};
