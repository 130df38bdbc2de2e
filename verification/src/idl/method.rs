//! Method definitions for Varlink IDL.

use vstd::prelude::*;
use vstd::std_specs::cmp::PartialEqSpec;
use vstd::std_specs::iter::IteratorSpec;
use super::comment::{comments_model, lemma_comment_list_eq, Comment};
use super::list::List;
use super::render::method_text;
use super::types::write_fields;
use vstd::string::StringExecFns;
use super::model::MethodModel;
use super::types::{fields_model, lemma_field_list_eq, Parameter};
use crate::text::str_eq;

verus! {

/// A method definition in Varlink IDL.
#[derive(Debug)]
pub struct Method<'a> {
    /// The name of the method.
    name: &'a str,
    /// Input parameters for the method.
    inputs: List<'a, Parameter<'a>>,
    /// Output parameters for the method.
    outputs: List<'a, Parameter<'a>>,
    /// Comments associated with this method.
    comments: List<'a, Comment<'a>>,
}

impl<'a> View for Method<'a> {
    type V = MethodModel;

    open spec fn view(&self) -> MethodModel {
        MethodModel {
            name: self.spec_name()@,
            inputs: fields_model(self.spec_inputs()),
            outputs: fields_model(self.spec_outputs()),
            comments: comments_model(self.spec_comments()),
        }
    }
}

impl<'a> Method<'a> {
    /// The name of the method.
    pub closed spec fn spec_name(self) -> &'a str {
        self.name
    }

    /// The input parameters, in order.
    pub closed spec fn spec_inputs(self) -> Seq<Parameter<'a>> {
        self.inputs.items()
    }

    /// The output parameters, in order.
    pub closed spec fn spec_outputs(self) -> Seq<Parameter<'a>> {
        self.outputs.items()
    }

    /// The comments of the method, in order.
    pub closed spec fn spec_comments(self) -> Seq<Comment<'a>> {
        self.comments.items()
    }

    /// Creates a new method with the given name, borrowed parameters, and comments.
    pub fn new(
        name: &'a str,
        inputs: &'a [&'a Parameter<'a>],
        outputs: &'a [&'a Parameter<'a>],
        comments: &'a [&'a Comment<'a>],
    ) -> (r: Self)
        ensures
            r.spec_name() == name,
            r.spec_inputs() == List::<'a, Parameter<'a>>::Borrowed(inputs).items(),
            r.spec_outputs() == List::<'a, Parameter<'a>>::Borrowed(outputs).items(),
            r.spec_comments() == List::<'a, Comment<'a>>::Borrowed(comments).items(),
    {
        Self {
            name,
            inputs: List::Borrowed(inputs),
            outputs: List::Borrowed(outputs),
            comments: List::Borrowed(comments),
        }
    }

    /// Creates a new method with the given name, owned parameters, and comments.
    pub fn new_owned(
        name: &'a str,
        inputs: Vec<Parameter<'a>>,
        outputs: Vec<Parameter<'a>>,
        comments: Vec<Comment<'a>>,
    ) -> (r: Self)
        ensures
            r.spec_name() == name,
            r.spec_inputs() == inputs@,
            r.spec_outputs() == outputs@,
            r.spec_comments() == comments@,
    {
        Self {
            name,
            inputs: List::Owned(inputs),
            outputs: List::Owned(outputs),
            comments: List::Owned(comments),
        }
    }

    /// Returns the name of the method.
    pub fn name(&self) -> (r: &'a str)
        ensures
            r == self.spec_name(),
    {
        self.name
    }

    /// Returns an iterator over the input parameters.
    pub fn inputs(&self) -> (r: std::vec::IntoIter<&Parameter<'a>>)
        ensures
            r.remaining().len() == self.spec_inputs().len(),
            forall|i: int|
                0 <= i < r.remaining().len() ==> *r.remaining()[i] == self.spec_inputs()[i],
    {
        self.inputs.iter()
    }

    /// Returns an iterator over the output parameters.
    pub fn outputs(&self) -> (r: std::vec::IntoIter<&Parameter<'a>>)
        ensures
            r.remaining().len() == self.spec_outputs().len(),
            forall|i: int|
                0 <= i < r.remaining().len() ==> *r.remaining()[i] == self.spec_outputs()[i],
    {
        self.outputs.iter()
    }

    /// The input parameters, as a list.
    pub fn input_list(&self) -> (r: &List<'a, Parameter<'a>>)
        ensures
            r.items() == self.spec_inputs(),
    {
        &self.inputs
    }

    /// The output parameters, as a list.
    pub fn output_list(&self) -> (r: &List<'a, Parameter<'a>>)
        ensures
            r.items() == self.spec_outputs(),
    {
        &self.outputs
    }

    /// Returns true if the method has no input parameters.
    pub fn has_no_inputs(&self) -> (r: bool)
        ensures
            r == (self.spec_inputs().len() == 0),
    {
        self.inputs.is_empty()
    }

    /// Returns true if the method has no output parameters.
    pub fn has_no_outputs(&self) -> (r: bool)
        ensures
            r == (self.spec_outputs().len() == 0),
    {
        self.outputs.is_empty()
    }

    /// Returns the comments associated with this method.
    pub fn comments(&self) -> (r: std::vec::IntoIter<&Comment<'a>>)
        ensures
            r.remaining().len() == self.spec_comments().len(),
            forall|i: int|
                0 <= i < r.remaining().len() ==> *r.remaining()[i] == self.spec_comments()[i],
    {
        self.comments.iter()
    }

    /// The comments of the method, as a list.
    pub fn comment_list(&self) -> (r: &List<'a, Comment<'a>>)
        ensures
            r.items() == self.spec_comments(),
    {
        &self.comments
    }
}

impl<'a> PartialEq for Method<'a> {
    /// Methods are equal when their names, parameters and comments are.
    fn eq(&self, other: &Self) -> (r: bool) {
        let r = str_eq(self.name, other.name) && self.inputs == other.inputs && self.outputs
            == other.outputs && self.comments == other.comments;
        proof {
            lemma_field_list_eq(self.inputs, other.inputs);
            lemma_field_list_eq(self.outputs, other.outputs);
            lemma_comment_list_eq(self.comments, other.comments);
        }
        r
    }
}

impl<'a> vstd::std_specs::cmp::PartialEqSpecImpl for Method<'a> {
    open spec fn obeys_eq_spec() -> bool {
        true
    }

    open spec fn eq_spec(&self, other: &Self) -> bool {
        self@ == other@
    }
}

/// Methods are equal exactly when they have the same name, the same inputs, the same outputs and
/// the same comments.
pub proof fn law_method_eq<'a>(a: Method<'a>, b: Method<'a>)
    ensures
        a.eq_spec(&b) <==> (a@.name == b@.name && a@.inputs == b@.inputs && a@.outputs
            == b@.outputs && a@.comments == b@.comments),
{
}

impl<'a> Eq for Method<'a> {
}


impl<'a> Method<'a> {
    /// Writes the IDL text of the method.
    pub(crate) fn write_to(&self, out: &mut String)
        ensures
            final(out)@ == old(out)@ + method_text(self@),
    {
        let ghost start = out@;
        out.append("method ");
        out.append(self.name);
        out.append("(");
        write_fields(&self.inputs, out);
        out.append(")");
        if !self.has_no_outputs() {
            out.append(" -> (");
            write_fields(&self.outputs, out);
            out.append(")");
        } else {
            assert(out@ == out@ + Seq::<char>::empty());
        }
    }

    /// The IDL text of the method: `method`, its name, its inputs, and, where it has some, its
    /// outputs. Comments are not written.
    pub fn to_string(&self) -> (r: String)
        ensures
            r@ == method_text(self@),
    {
        let mut out = String::new();
        self.write_to(&mut out);
        out
    }
}

} // verus!
