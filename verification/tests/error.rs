//! The errors of the library and their messages.

use zlink::error::{JsonCategory, JsonError};
use zlink::Error;

#[test]
fn error_messages() {
    assert_eq!(
        Error::SocketRead.to_string(),
        "An error occurred while reading from the socket"
    );
    assert_eq!(
        Error::SocketWrite.to_string(),
        "An error occurred while writing to the socket"
    );
    assert_eq!(Error::BufferOverflow.to_string(), "Buffer overflow");
    assert_eq!(Error::UnexpectedEof.to_string(), "Unexpected end of file");
    assert_eq!(
        Error::IdlParse("Input is empty".to_string()).to_string(),
        "IDL parse error: Input is empty"
    );
}

#[test]
fn json_error_message() {
    let e = JsonError {
        category: JsonCategory::Syntax,
        line: 1,
        column: 5,
        message: "expected value at line 1 column 5".to_string(),
    };
    assert_eq!(
        Error::from(e).to_string(),
        "Error serializing or deserializing to/from JSON: expected value at line 1 column 5"
    );
}

#[test]
fn io_error_message() {
    let e = std::io::Error::new(std::io::ErrorKind::Other, "boom");
    let error = Error::from(e);
    assert!(matches!(error, Error::Io(_)));
    assert_eq!(error.to_string(), "I/O error: boom");
}

#[test]
fn utf8_error_message() {
    let bytes = vec![0x66u8, 0xff];
    let e = std::str::from_utf8(&bytes).unwrap_err();
    assert_eq!(
        Error::InvalidUtf8(e).to_string(),
        "Invalid UTF-8 data: invalid utf-8 sequence of 1 bytes from index 1"
    );
}
