//! Member definitions for Varlink interfaces.

use vstd::prelude::*;
use super::custom_type::CustomType;
use super::error::Error;
use super::method::Method;
use super::render::{custom_type_text, error_text, method_text};

verus! {

/// A member of a Varlink interface.
#[derive(Debug)]
pub enum Member<'a> {
    /// A custom type definition.
    Custom(CustomType<'a>),
    /// A method definition.
    Method(Method<'a>),
    /// An error definition.
    Error(Error<'a>),
}

impl<'a> Member<'a> {
    /// The name of the member.
    pub open spec fn spec_name(self) -> &'a str {
        match self {
            Member::Custom(c) => c.spec_name(),
            Member::Method(m) => m.spec_name(),
            Member::Error(e) => e.spec_name(),
        }
    }

    /// Returns the name of this member.
    pub fn name(&self) -> (r: &'a str)
        ensures
            r == self.spec_name(),
    {
        match self {
            Member::Custom(custom) => custom.name(),
            Member::Method(method) => method.name(),
            Member::Error(error) => error.name(),
        }
    }

    /// The IDL text of the member: that of the definition it holds.
    pub fn to_string(&self) -> (r: String)
        ensures
            match *self {
                Member::Custom(c) => r@ == custom_type_text(c@),
                Member::Method(m) => r@ == method_text(m@),
                Member::Error(e) => r@ == error_text(e@),
            },
    {
        match self {
            Member::Custom(custom) => custom.to_string(),
            Member::Method(method) => method.to_string(),
            Member::Error(error) => error.to_string(),
        }
    }
}

} // verus!
