//! The first, smaller take on the Varlink protocol: calls and replies with optional flags.

pub mod connection;
pub use connection::{Call, Reply};

pub mod error;
pub use error::{Error, Result};

use vstd::prelude::*;

verus! {

/// Adds two numbers.
pub fn add(left: u64, right: u64) -> (r: u64)
    requires
        left + right <= u64::MAX,
    ensures
        r == left + right,
{
    left + right
}

} // verus!
