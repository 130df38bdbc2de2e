//! A verified core for the Varlink IPC protocol: the interface description language (IDL), its
//! parser and renderer, method calls and the message framing used on connections.

pub mod error;
pub use error::{Error, Result};

pub mod call;
pub use call::Call;

pub mod connection;

pub mod idl;

pub mod codegen;
mod text;

pub mod zarlink;
