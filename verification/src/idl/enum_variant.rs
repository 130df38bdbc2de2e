//! Enum variant definition for Varlink IDL.

use vstd::prelude::*;
use vstd::std_specs::cmp::PartialEqSpec;
use vstd::std_specs::iter::IteratorSpec;
use super::comment::{comments_model, lemma_comment_list_eq, Comment};
use super::list::List;
use super::render::{variant_text, write_comment_lines};
use vstd::string::StringExecFns;
use super::model::VariantModel;
use crate::text::str_eq;

verus! {

/// A single variant in an enum type definition.
#[derive(Debug, Clone)]
pub struct EnumVariant<'a> {
    /// The name of the variant.
    name: &'a str,
    /// The comments associated with this variant.
    comments: List<'a, Comment<'a>>,
}

impl<'a> View for EnumVariant<'a> {
    type V = VariantModel;

    open spec fn view(&self) -> VariantModel {
        VariantModel { name: self.spec_name()@, comments: comments_model(self.spec_comments()) }
    }
}

impl<'a> EnumVariant<'a> {
    /// The name of the variant.
    pub closed spec fn spec_name(self) -> &'a str {
        self.name
    }

    /// The comments of the variant, in order.
    pub closed spec fn spec_comments(self) -> Seq<Comment<'a>> {
        self.comments.items()
    }

    /// Creates a new enum variant with the given name and borrowed comments.
    pub fn new(name: &'a str, comments: &'a [&'a Comment<'a>]) -> (r: Self)
        ensures
            r.spec_name() == name,
            r.spec_comments() == List::<'a, Comment<'a>>::Borrowed(comments).items(),
    {
        Self { name, comments: List::Borrowed(comments) }
    }

    /// Creates a new enum variant with the given name and owned comments.
    pub fn new_owned(name: &'a str, comments: Vec<Comment<'a>>) -> (r: Self)
        ensures
            r.spec_name() == name,
            r.spec_comments() == comments@,
    {
        Self { name, comments: List::Owned(comments) }
    }

    /// Returns the name of the variant.
    pub fn name(&self) -> (r: &'a str)
        ensures
            r == self.spec_name(),
    {
        self.name
    }

    /// Returns an iterator over the comments associated with this variant.
    pub fn comments(&self) -> (r: std::vec::IntoIter<&Comment<'a>>)
        ensures
            r.remaining().len() == self.spec_comments().len(),
            forall|i: int|
                0 <= i < r.remaining().len() ==> *r.remaining()[i] == self.spec_comments()[i],
    {
        self.comments.iter()
    }

    /// The comments of the variant, as a list.
    pub fn comment_list(&self) -> (r: &List<'a, Comment<'a>>)
        ensures
            r.items() == self.spec_comments(),
    {
        &self.comments
    }

    /// Returns true if this variant has any comments.
    pub fn has_comments(&self) -> (r: bool)
        ensures
            r == (self.spec_comments().len() > 0),
    {
        !self.comments.is_empty()
    }
}

impl<'a> PartialEq for EnumVariant<'a> {
    fn eq(&self, other: &Self) -> (r: bool) {
        let same = str_eq(self.name, other.name) && self.comments == other.comments;
        proof {
            lemma_comment_list_eq(self.comments, other.comments);
        }
        same
    }
}

impl<'a> vstd::std_specs::cmp::PartialEqSpecImpl for EnumVariant<'a> {
    open spec fn obeys_eq_spec() -> bool {
        true
    }

    open spec fn eq_spec(&self, other: &Self) -> bool {
        self@ == other@
    }
}

impl<'a> Eq for EnumVariant<'a> {
}


impl<'a> EnumVariant<'a> {
    /// The IDL text of the variant: its comment lines, then its name.
    pub fn to_string(&self) -> (r: String)
        ensures
            r@ == variant_text(self@),
    {
        let mut out = String::new();
        write_comment_lines(&self.comments, "", &mut out);
        out.append(self.name);
        out
    }
}

} // verus!
