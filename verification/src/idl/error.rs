//! Error definitions for Varlink IDL.

use vstd::prelude::*;
use vstd::std_specs::cmp::PartialEqSpec;
use vstd::std_specs::iter::IteratorSpec;
use super::comment::{comments_model, Comment};
use super::list::List;
use super::render::{error_text, write_comment_lines};
use super::types::write_fields;
use vstd::string::StringExecFns;
use super::model::ErrorModel;
use super::types::{fields_model, lemma_field_list_eq, Field};
use crate::text::str_eq;

verus! {

/// An error definition in Varlink IDL.
#[derive(Debug)]
pub struct Error<'a> {
    /// The name of the error.
    name: &'a str,
    /// The fields of the error.
    fields: List<'a, Field<'a>>,
    /// Comments associated with this error.
    comments: List<'a, Comment<'a>>,
}

impl<'a> View for Error<'a> {
    type V = ErrorModel;

    open spec fn view(&self) -> ErrorModel {
        ErrorModel {
            name: self.spec_name()@,
            fields: fields_model(self.spec_fields()),
            comments: comments_model(self.spec_comments()),
        }
    }
}

impl<'a> Error<'a> {
    /// The name of the error.
    pub closed spec fn spec_name(self) -> &'a str {
        self.name
    }

    /// The fields of the error, in order.
    pub closed spec fn spec_fields(self) -> Seq<Field<'a>> {
        self.fields.items()
    }

    /// The comments of the error, in order.
    pub closed spec fn spec_comments(self) -> Seq<Comment<'a>> {
        self.comments.items()
    }

    /// Creates a new error with the given name, borrowed fields, and comments.
    pub fn new(name: &'a str, fields: &'a [&'a Field<'a>], comments: &'a [&'a Comment<'a>]) -> (r:
        Self)
        ensures
            r.spec_name() == name,
            r.spec_fields() == List::<'a, Field<'a>>::Borrowed(fields).items(),
            r.spec_comments() == List::<'a, Comment<'a>>::Borrowed(comments).items(),
    {
        Self { name, fields: List::Borrowed(fields), comments: List::Borrowed(comments) }
    }

    /// Creates a new error with the given name, owned fields, and comments.
    pub fn new_owned(name: &'a str, fields: Vec<Field<'a>>, comments: Vec<Comment<'a>>) -> (r: Self)
        ensures
            r.spec_name() == name,
            r.spec_fields() == fields@,
            r.spec_comments() == comments@,
    {
        Self { name, fields: List::Owned(fields), comments: List::Owned(comments) }
    }

    /// Returns the name of the error.
    pub fn name(&self) -> (r: &'a str)
        ensures
            r == self.spec_name(),
    {
        self.name
    }

    /// Returns an iterator over the fields of the error.
    pub fn fields(&self) -> (r: std::vec::IntoIter<&Field<'a>>)
        ensures
            r.remaining().len() == self.spec_fields().len(),
            forall|i: int|
                0 <= i < r.remaining().len() ==> *r.remaining()[i] == self.spec_fields()[i],
    {
        self.fields.iter()
    }

    /// The fields of the error, as a list.
    pub fn field_list(&self) -> (r: &List<'a, Field<'a>>)
        ensures
            r.items() == self.spec_fields(),
    {
        &self.fields
    }

    /// Returns true if the error has no fields.
    pub fn has_no_fields(&self) -> (r: bool)
        ensures
            r == (self.spec_fields().len() == 0),
    {
        self.fields.is_empty()
    }

    /// Returns an iterator over the comments associated with this error.
    pub fn comments(&self) -> (r: std::vec::IntoIter<&Comment<'a>>)
        ensures
            r.remaining().len() == self.spec_comments().len(),
            forall|i: int|
                0 <= i < r.remaining().len() ==> *r.remaining()[i] == self.spec_comments()[i],
    {
        self.comments.iter()
    }

    /// The comments of the error, as a list.
    pub fn comment_list(&self) -> (r: &List<'a, Comment<'a>>)
        ensures
            r.items() == self.spec_comments(),
    {
        &self.comments
    }
}

impl<'a> PartialEq for Error<'a> {
    /// Errors are equal when their names and fields are; comments are not compared.
    fn eq(&self, other: &Self) -> (r: bool) {
        let r = str_eq(self.name, other.name) && self.fields == other.fields;
        proof {
            lemma_field_list_eq(self.fields, other.fields);
        }
        r
    }
}

impl<'a> vstd::std_specs::cmp::PartialEqSpecImpl for Error<'a> {
    open spec fn obeys_eq_spec() -> bool {
        true
    }

    open spec fn eq_spec(&self, other: &Self) -> bool {
        self@.name == other@.name && self@.fields == other@.fields
    }
}

/// Errors are equal exactly when they have the same name and the same fields; their own comments
/// do not count.
pub proof fn law_error_eq<'a>(a: Error<'a>, b: Error<'a>)
    ensures
        a.eq_spec(&b) <==> (a@.name == b@.name && a@.fields == b@.fields),
{
}

impl<'a> Eq for Error<'a> {
}


impl<'a> Error<'a> {
    /// Writes the IDL text of the error.
    pub(crate) fn write_to(&self, out: &mut String)
        ensures
            final(out)@ == old(out)@ + error_text(self@),
    {
        write_comment_lines(&self.comments, "", out);
        out.append("error ");
        out.append(self.name);
        out.append(" (");
        write_fields(&self.fields, out);
        out.append(")");
    }

    /// The IDL text of the error: its comment lines, `error`, its name and its fields.
    pub fn to_string(&self) -> (r: String)
        ensures
            r@ == error_text(self@),
    {
        let mut out = String::new();
        self.write_to(&mut out);
        out
    }
}

} // verus!
