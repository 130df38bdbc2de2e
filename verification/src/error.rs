//! The error type of this library.

use vstd::prelude::*;
use vstd::string::StringExecFns;

verus! {

/// `core::str::Utf8Error`, carried through unchanged.
#[verifier::external_type_specification]
#[verifier::external_body]
pub struct ExUtf8Error(core::str::Utf8Error);


/// `std::io::Error`, carried through unchanged.
#[verifier::external_type_specification]
#[verifier::external_body]
pub struct ExIoError(std::io::Error);

/// What kind of JSON error occurred.
#[derive(Debug, Clone, Copy, PartialEq, Eq)]
pub enum JsonCategory {
    /// Reading or writing the bytes failed.
    Io,
    /// The input is not valid JSON.
    Syntax,
    /// The input is valid JSON but not what was expected.
    Data,
    /// The input ended before the JSON value did.
    Eof,
}

/// A JSON error: its kind, where in the input it occurred, and its message.
#[derive(Debug, Clone)]
pub struct JsonError {
    /// What kind of error it is.
    pub category: JsonCategory,
    /// The line of the input where it occurred, from 1; 0 where there is none.
    pub line: usize,
    /// The column of the input where it occurred, from 1; 0 where there is none.
    pub column: usize,
    /// The message.
    pub message: String,
}

/// The error type of this library.
#[derive(Debug)]
#[non_exhaustive]
pub enum Error {
    /// An error occurred while reading from the socket.
    SocketRead,
    /// An error occurred while writing to the socket.
    SocketWrite,
    /// Buffer overflow.
    BufferOverflow,
    /// The peer closed the connection before a whole message arrived.
    UnexpectedEof,
    /// Invalid UTF-8 data.
    InvalidUtf8(core::str::Utf8Error),
    /// Error serializing or deserializing to/from JSON.
    Json(JsonError),
    /// An I/O error.
    Io(std::io::Error),
    /// An error occurred while parsing IDL.
    IdlParse(String),
}

/// The result type of this library.
pub type Result<T> = core::result::Result<T, Error>;

impl From<std::io::Error> for Error {
    fn from(e: std::io::Error) -> (r: Self) {
        Error::Io(e)
    }
}

impl vstd::std_specs::convert::FromSpecImpl<std::io::Error> for Error {
    open spec fn obeys_from_spec() -> bool {
        true
    }

    open spec fn from_spec(v: std::io::Error) -> Self {
        Error::Io(v)
    }
}

impl From<JsonError> for Error {
    fn from(e: JsonError) -> (r: Self) {
        Error::Json(e)
    }
}

impl vstd::std_specs::convert::FromSpecImpl<JsonError> for Error {
    open spec fn obeys_from_spec() -> bool {
        true
    }

    open spec fn from_spec(v: JsonError) -> Self {
        Error::Json(v)
    }
}

/// `<core::str::Utf8Error as Display>::fmt`, through `format!`: its text. It depends on where the
/// invalid bytes are, which the error holds; nothing of it is stated here.
#[verifier::external_body]
fn utf8_error_text(e: &core::str::Utf8Error) -> String {
    format!("{e}")
}

/// `<std::io::Error as Display>::fmt`, through `format!`: its text. It depends on the error,
/// which may hold an OS error code; nothing of it is stated here.
#[verifier::external_body]
fn io_error_text(e: &std::io::Error) -> String {
    format!("{e}")
}

impl Error {
    /// The message of the error.
    pub fn to_string(&self) -> (r: String)
        ensures
            match self {
                Error::SocketRead => r@ == "An error occurred while reading from the socket"@,
                Error::SocketWrite => r@ == "An error occurred while writing to the socket"@,
                Error::BufferOverflow => r@ == "Buffer overflow"@,
                Error::UnexpectedEof => r@ == "Unexpected end of file"@,
                Error::InvalidUtf8(_) => exists|t: Seq<char>| r@ == "Invalid UTF-8 data: "@ + t,
                Error::Json(e) => r@ == "Error serializing or deserializing to/from JSON: "@
                    + e.message@,
                Error::Io(_) => exists|t: Seq<char>| r@ == "I/O error: "@ + t,
                Error::IdlParse(m) => r@ == "IDL parse error: "@ + m@,
            },
    {
        match self {
            Error::SocketRead => String::from_str("An error occurred while reading from the socket"),
            Error::SocketWrite => String::from_str("An error occurred while writing to the socket"),
            Error::BufferOverflow => String::from_str("Buffer overflow"),
            Error::UnexpectedEof => String::from_str("Unexpected end of file"),
            Error::InvalidUtf8(e) => {
                let t = utf8_error_text(e);
                let r = String::from_str("Invalid UTF-8 data: ").concat(t.as_str());
                assert(r@ == "Invalid UTF-8 data: "@ + t@);
                r
            },
            Error::Json(e) => String::from_str(
                "Error serializing or deserializing to/from JSON: ",
            ).concat(e.message.as_str()),
            Error::Io(e) => {
                let t = io_error_text(e);
                let r = String::from_str("I/O error: ").concat(t.as_str());
                assert(r@ == "I/O error: "@ + t@);
                r
            },
            Error::IdlParse(m) => String::from_str("IDL parse error: ").concat(m.as_str()),
        }
    }
}

} // verus!
