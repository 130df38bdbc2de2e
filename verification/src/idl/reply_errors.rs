//! Introspection of the errors that a method reply can carry.

use vstd::prelude::*;
use super::error::Error;

verus! {

/// Introspection trait for method reply errors type.
///
/// Implemented by the error type of a service's replies, it lists the IDL definitions of the
/// errors that a method of the service may return.
pub trait ReplyErrors {
    /// The list of possible errors this type can return.
    fn reply_errors() -> Vec<Error<'static>>;
}

} // verus!
