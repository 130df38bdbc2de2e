//! Enum type definition for Varlink IDL.

use vstd::prelude::*;
use vstd::std_specs::iter::IteratorSpec;
use super::comment::{comments_model, Comment};
use super::enum_variant::EnumVariant;
use super::list::List;
use super::render::{enum_text, write_comment_lines, write_variants};
use vstd::string::StringExecFns;
use super::model::EnumModel;
use super::types::{lemma_variant_list_eq, variants_model};
use crate::text::str_eq;

verus! {

/// An enum type definition in Varlink IDL (enum-like with named variants).
#[derive(Debug, Clone)]
pub struct CustomEnum<'a> {
    /// The name of the enum type.
    name: &'a str,
    /// The variants of the enum type.
    variants: List<'a, EnumVariant<'a>>,
    /// The comments associated with this enum type.
    comments: List<'a, Comment<'a>>,
}

impl<'a> View for CustomEnum<'a> {
    type V = EnumModel;

    open spec fn view(&self) -> EnumModel {
        EnumModel {
            name: self.spec_name()@,
            variants: variants_model(self.spec_variants()),
            comments: comments_model(self.spec_comments()),
        }
    }
}

impl<'a> CustomEnum<'a> {
    /// The name of the enum type.
    pub closed spec fn spec_name(self) -> &'a str {
        self.name
    }

    /// The variants of the enum type, in order.
    pub closed spec fn spec_variants(self) -> Seq<EnumVariant<'a>> {
        self.variants.items()
    }

    /// The comments of the enum type, in order.
    pub closed spec fn spec_comments(self) -> Seq<Comment<'a>> {
        self.comments.items()
    }

    /// Creates a new enum type with the given name, borrowed variants, and comments.
    pub fn new(
        name: &'a str,
        variants: &'a [&'a EnumVariant<'a>],
        comments: &'a [&'a Comment<'a>],
    ) -> (r: Self)
        ensures
            r.spec_name() == name,
            r.spec_variants() == List::<'a, EnumVariant<'a>>::Borrowed(variants).items(),
            r.spec_comments() == List::<'a, Comment<'a>>::Borrowed(comments).items(),
    {
        Self { name, variants: List::Borrowed(variants), comments: List::Borrowed(comments) }
    }

    /// Creates a new enum type with the given name, owned variants, and comments.
    pub fn new_owned(name: &'a str, variants: Vec<EnumVariant<'a>>, comments: Vec<Comment<'a>>) -> (r:
        Self)
        ensures
            r.spec_name() == name,
            r.spec_variants() == variants@,
            r.spec_comments() == comments@,
    {
        Self { name, variants: List::Owned(variants), comments: List::Owned(comments) }
    }

    /// Returns the name of the enum type.
    pub fn name(&self) -> (r: &'a str)
        ensures
            r == self.spec_name(),
    {
        self.name
    }

    /// Returns an iterator over the variants of the enum type.
    pub fn variants(&self) -> (r: std::vec::IntoIter<&EnumVariant<'a>>)
        ensures
            r.remaining().len() == self.spec_variants().len(),
            forall|i: int|
                0 <= i < r.remaining().len() ==> *r.remaining()[i] == self.spec_variants()[i],
    {
        self.variants.iter()
    }

    /// The variants of the enum type, as a list.
    pub fn variant_list(&self) -> (r: &List<'a, EnumVariant<'a>>)
        ensures
            r.items() == self.spec_variants(),
    {
        &self.variants
    }

    /// Returns an iterator over the comments associated with this enum type.
    pub fn comments(&self) -> (r: std::vec::IntoIter<&Comment<'a>>)
        ensures
            r.remaining().len() == self.spec_comments().len(),
            forall|i: int|
                0 <= i < r.remaining().len() ==> *r.remaining()[i] == self.spec_comments()[i],
    {
        self.comments.iter()
    }

    /// The comments of the enum type, as a list.
    pub fn comment_list(&self) -> (r: &List<'a, Comment<'a>>)
        ensures
            r.items() == self.spec_comments(),
    {
        &self.comments
    }
}

impl<'a> PartialEq for CustomEnum<'a> {
    /// Enums are equal when their names and variants are; comments are not compared.
    fn eq(&self, other: &Self) -> (r: bool) {
        let r = str_eq(self.name, other.name) && self.variants == other.variants;
        proof {
            lemma_variant_list_eq(self.variants, other.variants);
        }
        r
    }
}

impl<'a> vstd::std_specs::cmp::PartialEqSpecImpl for CustomEnum<'a> {
    open spec fn obeys_eq_spec() -> bool {
        true
    }

    open spec fn eq_spec(&self, other: &Self) -> bool {
        self@.name == other@.name && self@.variants == other@.variants
    }
}

impl<'a> Eq for CustomEnum<'a> {
}


impl<'a> CustomEnum<'a> {
    /// Writes the IDL text of the enum type.
    pub(crate) fn write_to(&self, out: &mut String)
        ensures
            final(out)@ == old(out)@ + enum_text(self@),
    {
        write_comment_lines(&self.comments, "", out);
        out.append("type ");
        out.append(self.name);
        out.append(" ");
        write_variants(&self.variants, out);
    }

    /// The IDL text of the enum type: its comment lines, `type`, its name and its variants, on
    /// one line where no variant has comments, else one per line.
    pub fn to_string(&self) -> (r: String)
        ensures
            r@ == enum_text(self@),
    {
        let mut out = String::new();
        self.write_to(&mut out);
        out
    }
}

} // verus!
