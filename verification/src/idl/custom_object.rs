//! Object type definition for Varlink IDL.

use vstd::prelude::*;
use vstd::std_specs::iter::IteratorSpec;
use super::comment::{comments_model, lemma_comment_list_eq, Comment};
use super::list::List;
use super::render::{object_text, write_comment_lines};
use super::types::write_fields;
use vstd::string::StringExecFns;
use super::model::ObjectModel;
use super::types::{fields_model, lemma_field_list_eq, Field};
use crate::text::str_eq;

verus! {

/// An object type definition in Varlink IDL (struct-like with named fields).
#[derive(Debug)]
pub struct CustomObject<'a> {
    /// The name of the object type.
    name: &'a str,
    /// The fields of the object type.
    fields: List<'a, Field<'a>>,
    /// The comments associated with this object type.
    comments: List<'a, Comment<'a>>,
}

impl<'a> View for CustomObject<'a> {
    type V = ObjectModel;

    open spec fn view(&self) -> ObjectModel {
        ObjectModel {
            name: self.spec_name()@,
            fields: fields_model(self.spec_fields()),
            comments: comments_model(self.spec_comments()),
        }
    }
}

impl<'a> CustomObject<'a> {
    /// The name of the object type.
    pub closed spec fn spec_name(self) -> &'a str {
        self.name
    }

    /// The fields of the object type, in order.
    pub closed spec fn spec_fields(self) -> Seq<Field<'a>> {
        self.fields.items()
    }

    /// The comments of the object type, in order.
    pub closed spec fn spec_comments(self) -> Seq<Comment<'a>> {
        self.comments.items()
    }

    /// Creates a new object type with the given name, borrowed fields, and comments.
    pub fn new(name: &'a str, fields: &'a [&'a Field<'a>], comments: &'a [&'a Comment<'a>]) -> (r:
        Self)
        ensures
            r.spec_name() == name,
            r.spec_fields() == List::<'a, Field<'a>>::Borrowed(fields).items(),
            r.spec_comments() == List::<'a, Comment<'a>>::Borrowed(comments).items(),
    {
        Self { name, fields: List::Borrowed(fields), comments: List::Borrowed(comments) }
    }

    /// Creates a new object type with the given name, owned fields, and comments.
    pub fn new_owned(name: &'a str, fields: Vec<Field<'a>>, comments: Vec<Comment<'a>>) -> (r: Self)
        ensures
            r.spec_name() == name,
            r.spec_fields() == fields@,
            r.spec_comments() == comments@,
    {
        Self { name, fields: List::Owned(fields), comments: List::Owned(comments) }
    }

    /// Returns the name of the object type.
    pub fn name(&self) -> (r: &'a str)
        ensures
            r == self.spec_name(),
    {
        self.name
    }

    /// Returns an iterator over the fields of the object type.
    pub fn fields(&self) -> (r: std::vec::IntoIter<&Field<'a>>)
        ensures
            r.remaining().len() == self.spec_fields().len(),
            forall|i: int|
                0 <= i < r.remaining().len() ==> *r.remaining()[i] == self.spec_fields()[i],
    {
        self.fields.iter()
    }

    /// The fields of the object type, as a list.
    pub fn field_list(&self) -> (r: &List<'a, Field<'a>>)
        ensures
            r.items() == self.spec_fields(),
    {
        &self.fields
    }

    /// Returns an iterator over the comments associated with this object type.
    pub fn comments(&self) -> (r: std::vec::IntoIter<&Comment<'a>>)
        ensures
            r.remaining().len() == self.spec_comments().len(),
            forall|i: int|
                0 <= i < r.remaining().len() ==> *r.remaining()[i] == self.spec_comments()[i],
    {
        self.comments.iter()
    }

    /// The comments of the object type, as a list.
    pub fn comment_list(&self) -> (r: &List<'a, Comment<'a>>)
        ensures
            r.items() == self.spec_comments(),
    {
        &self.comments
    }
}

impl<'a> PartialEq for CustomObject<'a> {
    /// Objects are equal when their names and fields are; comments are not compared.
    fn eq(&self, other: &Self) -> (r: bool) {
        let r = str_eq(self.name, other.name) && self.fields == other.fields;
        proof {
            lemma_field_list_eq(self.fields, other.fields);
        }
        r
    }
}

impl<'a> vstd::std_specs::cmp::PartialEqSpecImpl for CustomObject<'a> {
    open spec fn obeys_eq_spec() -> bool {
        true
    }

    open spec fn eq_spec(&self, other: &Self) -> bool {
        self@.name == other@.name && self@.fields == other@.fields
    }
}

impl<'a> Eq for CustomObject<'a> {
}


impl<'a> CustomObject<'a> {
    /// Writes the IDL text of the object type.
    pub(crate) fn write_to(&self, out: &mut String)
        ensures
            final(out)@ == old(out)@ + object_text(self@),
    {
        write_comment_lines(&self.comments, "", out);
        out.append("type ");
        out.append(self.name);
        out.append(" (");
        write_fields(&self.fields, out);
        out.append(")");
    }

    /// The IDL text of the object type: its comment lines, `type`, its name and its fields.
    pub fn to_string(&self) -> (r: String)
        ensures
            r@ == object_text(self@),
    {
        let mut out = String::new();
        self.write_to(&mut out);
        out
    }
}

} // verus!
