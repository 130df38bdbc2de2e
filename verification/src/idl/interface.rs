//! Interface definitions for Varlink IDL.

use vstd::prelude::*;
use vstd::std_specs::iter::IteratorSpec;
use vstd::std_specs::cmp::PartialEqSpec;
use super::comment::{comments_model, Comment};
use super::custom_type::CustomType;
use super::error::Error;
use super::list::{items_eq, List};
use super::render::{blocks, custom_type_text, error_text, interface_text, method_text};
use vstd::string::StringExecFns;
use super::method::Method;
use super::model::{CustomTypeModel, ErrorModel, InterfaceModel, MethodModel};
use crate::text::str_eq;

verus! {

/// A Varlink interface definition.
#[derive(Debug)]
pub struct Interface<'a> {
    /// The name of the interface in reverse-domain notation.
    name: &'a str,
    /// The methods of the interface.
    methods: List<'a, Method<'a>>,
    /// The custom types of the interface.
    custom_types: List<'a, CustomType<'a>>,
    /// The errors of the interface.
    errors: List<'a, Error<'a>>,
    /// The comments associated with this interface.
    comments: List<'a, Comment<'a>>,
}

/// The models of a sequence of methods.
pub open spec fn methods_model<'a>(s: Seq<Method<'a>>) -> Seq<MethodModel> {
    Seq::new(s.len(), |i: int| s[i]@)
}

/// The models of a sequence of custom types.
pub open spec fn custom_types_model<'a>(s: Seq<CustomType<'a>>) -> Seq<CustomTypeModel> {
    Seq::new(s.len(), |i: int| s[i]@)
}

/// The models of a sequence of errors.
pub open spec fn errors_model<'a>(s: Seq<Error<'a>>) -> Seq<ErrorModel> {
    Seq::new(s.len(), |i: int| s[i]@)
}

impl<'a> View for Interface<'a> {
    type V = InterfaceModel;

    open spec fn view(&self) -> InterfaceModel {
        InterfaceModel {
            name: self.spec_name()@,
            methods: methods_model(self.spec_methods()),
            custom_types: custom_types_model(self.spec_custom_types()),
            errors: errors_model(self.spec_errors()),
            comments: comments_model(self.spec_comments()),
        }
    }
}

impl<'a> Interface<'a> {
    /// The name of the interface.
    pub closed spec fn spec_name(self) -> &'a str {
        self.name
    }

    /// The methods, in declaration order.
    pub closed spec fn spec_methods(self) -> Seq<Method<'a>> {
        self.methods.items()
    }

    /// The custom types, in declaration order.
    pub closed spec fn spec_custom_types(self) -> Seq<CustomType<'a>> {
        self.custom_types.items()
    }

    /// The errors, in declaration order.
    pub closed spec fn spec_errors(self) -> Seq<Error<'a>> {
        self.errors.items()
    }

    /// The comments of the interface, in order.
    pub closed spec fn spec_comments(self) -> Seq<Comment<'a>> {
        self.comments.items()
    }

    /// Creates a new interface with the given name, borrowed collections, and comments.
    pub fn new(
        name: &'a str,
        methods: &'a [&'a Method<'a>],
        custom_types: &'a [&'a CustomType<'a>],
        errors: &'a [&'a Error<'a>],
        comments: &'a [&'a Comment<'a>],
    ) -> (r: Self)
        ensures
            r.spec_name() == name,
            r.spec_methods() == List::<'a, Method<'a>>::Borrowed(methods).items(),
            r.spec_custom_types() == List::<'a, CustomType<'a>>::Borrowed(custom_types).items(),
            r.spec_errors() == List::<'a, Error<'a>>::Borrowed(errors).items(),
            r.spec_comments() == List::<'a, Comment<'a>>::Borrowed(comments).items(),
    {
        Self {
            name,
            methods: List::Borrowed(methods),
            custom_types: List::Borrowed(custom_types),
            errors: List::Borrowed(errors),
            comments: List::Borrowed(comments),
        }
    }

    /// Creates a new interface with the given name, owned collections, and comments.
    pub fn new_owned(
        name: &'a str,
        methods: Vec<Method<'a>>,
        custom_types: Vec<CustomType<'a>>,
        errors: Vec<Error<'a>>,
        comments: Vec<Comment<'a>>,
    ) -> (r: Self)
        ensures
            r.spec_name() == name,
            r.spec_methods() == methods@,
            r.spec_custom_types() == custom_types@,
            r.spec_errors() == errors@,
            r.spec_comments() == comments@,
    {
        Self {
            name,
            methods: List::Owned(methods),
            custom_types: List::Owned(custom_types),
            errors: List::Owned(errors),
            comments: List::Owned(comments),
        }
    }

    /// Returns the name of the interface.
    pub fn name(&self) -> (r: &'a str)
        ensures
            r == self.spec_name(),
    {
        self.name
    }

    /// Returns an iterator over the methods of the interface.
    pub fn methods(&self) -> (r: std::vec::IntoIter<&Method<'a>>)
        ensures
            r.remaining().len() == self.spec_methods().len(),
            forall|i: int|
                0 <= i < r.remaining().len() ==> *r.remaining()[i] == self.spec_methods()[i],
    {
        self.methods.iter()
    }

    /// Returns an iterator over the custom types of the interface.
    pub fn custom_types(&self) -> (r: std::vec::IntoIter<&CustomType<'a>>)
        ensures
            r.remaining().len() == self.spec_custom_types().len(),
            forall|i: int|
                0 <= i < r.remaining().len() ==> *r.remaining()[i] == self.spec_custom_types()[i],
    {
        self.custom_types.iter()
    }

    /// Returns an iterator over the errors of the interface.
    pub fn errors(&self) -> (r: std::vec::IntoIter<&Error<'a>>)
        ensures
            r.remaining().len() == self.spec_errors().len(),
            forall|i: int|
                0 <= i < r.remaining().len() ==> *r.remaining()[i] == self.spec_errors()[i],
    {
        self.errors.iter()
    }

    /// Returns an iterator over the comments associated with this interface.
    pub fn comments(&self) -> (r: std::vec::IntoIter<&Comment<'a>>)
        ensures
            r.remaining().len() == self.spec_comments().len(),
            forall|i: int|
                0 <= i < r.remaining().len() ==> *r.remaining()[i] == self.spec_comments()[i],
    {
        self.comments.iter()
    }

    /// The methods, as a list.
    pub fn method_list(&self) -> (r: &List<'a, Method<'a>>)
        ensures
            r.items() == self.spec_methods(),
    {
        &self.methods
    }

    /// The custom types, as a list.
    pub fn custom_type_list(&self) -> (r: &List<'a, CustomType<'a>>)
        ensures
            r.items() == self.spec_custom_types(),
    {
        &self.custom_types
    }

    /// The errors, as a list.
    pub fn error_list(&self) -> (r: &List<'a, Error<'a>>)
        ensures
            r.items() == self.spec_errors(),
    {
        &self.errors
    }

    /// The comments, as a list.
    pub fn comment_list(&self) -> (r: &List<'a, Comment<'a>>)
        ensures
            r.items() == self.spec_comments(),
    {
        &self.comments
    }

    /// Returns true if the interface has no members.
    pub fn is_empty(&self) -> (r: bool)
        ensures
            r == (self.spec_methods().len() == 0 && self.spec_custom_types().len() == 0
                && self.spec_errors().len() == 0),
    {
        self.methods.is_empty() && self.custom_types.is_empty() && self.errors.is_empty()
    }
}

impl<'a> PartialEq for Interface<'a> {
    /// Interfaces are equal when their names and members are; comments are not compared.
    fn eq(&self, other: &Self) -> (r: bool) {
        str_eq(self.name, other.name) && self.custom_types == other.custom_types && self.methods
            == other.methods && self.errors == other.errors
    }
}

impl<'a> vstd::std_specs::cmp::PartialEqSpecImpl for Interface<'a> {
    open spec fn obeys_eq_spec() -> bool {
        true
    }

    open spec fn eq_spec(&self, other: &Self) -> bool {
        &&& self@.name == other@.name
        &&& items_eq(self.spec_custom_types(), other.spec_custom_types())
        &&& items_eq(self.spec_methods(), other.spec_methods())
        &&& items_eq(self.spec_errors(), other.spec_errors())
    }
}

/// Two named type definitions are the same definition: both objects with the same name and
/// fields, or both enums with the same name and variants; their own comments do not count.
pub open spec fn same_custom_type(a: CustomTypeModel, b: CustomTypeModel) -> bool {
    match (a, b) {
        (CustomTypeModel::Object(x), CustomTypeModel::Object(y)) => x.name == y.name && x.fields
            == y.fields,
        (CustomTypeModel::Enum(x), CustomTypeModel::Enum(y)) => x.name == y.name && x.variants
            == y.variants,
        _ => false,
    }
}

/// Two errors are the same error: the same name and fields; their own comments do not count.
pub open spec fn same_error(a: ErrorModel, b: ErrorModel) -> bool {
    a.name == b.name && a.fields == b.fields
}

/// Interfaces are equal exactly when they have the same name, the same methods, the same named
/// types and the same errors, each kind in the same order; the comments of the interface, and
/// those of its named types and errors themselves, do not count.
pub proof fn law_interface_eq<'a>(a: Interface<'a>, b: Interface<'a>)
    ensures
        a.eq_spec(&b) <==> {
            &&& a@.name == b@.name
            &&& a@.methods == b@.methods
            &&& a@.custom_types.len() == b@.custom_types.len()
            &&& forall|i: int|
                0 <= i < a@.custom_types.len() ==> same_custom_type(
                    #[trigger] a@.custom_types[i],
                    b@.custom_types[i],
                )
            &&& a@.errors.len() == b@.errors.len()
            &&& forall|i: int|
                0 <= i < a@.errors.len() ==> same_error(#[trigger] a@.errors[i], b@.errors[i])
        },
{
    let (ma, mb) = (a.spec_methods(), b.spec_methods());
    let (ta, tb) = (a.spec_custom_types(), b.spec_custom_types());
    let (ea, eb) = (a.spec_errors(), b.spec_errors());
    assert(a@.methods.len() == ma.len() && b@.methods.len() == mb.len());
    assert(a@.custom_types.len() == ta.len() && b@.custom_types.len() == tb.len());
    assert(a@.errors.len() == ea.len() && b@.errors.len() == eb.len());
    assert(items_eq(ma, mb) <==> a@.methods == b@.methods) by {
        if items_eq(ma, mb) {
            assert forall|i: int| 0 <= i < ma.len() implies a@.methods[i] == b@.methods[i] by {
                assert(ma[i].eq_spec(&mb[i]));
            }
            assert(a@.methods =~= b@.methods);
        }
        if a@.methods == b@.methods {
            assert forall|i: int| 0 <= i < ma.len() implies #[trigger] ma[i].eq_spec(&mb[i]) by {
                assert(a@.methods[i] == ma[i]@);
                assert(b@.methods[i] == mb[i]@);
            }
        }
    }
    assert(items_eq(ta, tb) <==> (a@.custom_types.len() == b@.custom_types.len() && forall|i: int|
        0 <= i < a@.custom_types.len() ==> same_custom_type(
            #[trigger] a@.custom_types[i],
            b@.custom_types[i],
        ))) by {
        if items_eq(ta, tb) {
            assert forall|i: int| 0 <= i < a@.custom_types.len() implies same_custom_type(
                #[trigger] a@.custom_types[i],
                b@.custom_types[i],
            ) by {
                assert(ta[i].eq_spec(&tb[i]));
            }
        }
        if a@.custom_types.len() == b@.custom_types.len() && forall|i: int|
            0 <= i < a@.custom_types.len() ==> same_custom_type(
                #[trigger] a@.custom_types[i],
                b@.custom_types[i],
            ) {
            assert forall|i: int| 0 <= i < ta.len() implies #[trigger] ta[i].eq_spec(&tb[i]) by {
                assert(same_custom_type(a@.custom_types[i], b@.custom_types[i]));
            }
        }
    }
    assert(items_eq(ea, eb) <==> (a@.errors.len() == b@.errors.len() && forall|i: int|
        0 <= i < a@.errors.len() ==> same_error(#[trigger] a@.errors[i], b@.errors[i]))) by {
        if items_eq(ea, eb) {
            assert forall|i: int| 0 <= i < a@.errors.len() implies same_error(
                #[trigger] a@.errors[i],
                b@.errors[i],
            ) by {
                assert(ea[i].eq_spec(&eb[i]));
            }
        }
        if a@.errors.len() == b@.errors.len() && forall|i: int|
            0 <= i < a@.errors.len() ==> same_error(#[trigger] a@.errors[i], b@.errors[i]) {
            assert forall|i: int| 0 <= i < ea.len() implies #[trigger] ea[i].eq_spec(&eb[i]) by {
                assert(same_error(a@.errors[i], b@.errors[i]));
            }
        }
    }
}

impl<'a> Eq for Interface<'a> {
}


impl<'a> Interface<'a> {
    /// The IDL text of the interface: `interface` and its name, then its custom types, its methods
    /// and its errors, each after an empty line. Comments of the interface are not written.
    pub fn to_string(&self) -> (r: String)
        ensures
            r@ == interface_text(self@),
    {
        let mut out = String::from_str("interface ");
        out.append(self.name);
        let ghost head = out@;
        let types = self.custom_types.refs();
        let ghost tm = self@.custom_types;
        let ghost tparts = tm.map_values(|c: CustomTypeModel| custom_type_text(c));
        let n = types.len();
        for k in 0..n
            invariant
                n == types@.len(),
                n == tm.len(),
                tm == custom_types_model(self.spec_custom_types()),
                tparts == tm.map_values(|c: CustomTypeModel| custom_type_text(c)),
                forall|i: int| 0 <= i < n ==> (*types@[i])@ == tm[i],
                out@ == head + blocks(tparts.subrange(0, k as int)),
        {
            out.append("\n\n");
            types[k].write_to(&mut out);
            proof {
                let u = tparts.subrange(0, k + 1);
                assert(u.drop_last() =~= tparts.subrange(0, k as int));
            }
        }
        assert(tparts.subrange(0, n as int) =~= tparts);
        let ghost head2 = out@;
        let methods = self.methods.refs();
        let ghost mm = self@.methods;
        let ghost mparts = mm.map_values(|m: MethodModel| method_text(m));
        let n = methods.len();
        for k in 0..n
            invariant
                n == methods@.len(),
                n == mm.len(),
                mm == methods_model(self.spec_methods()),
                mparts == mm.map_values(|m: MethodModel| method_text(m)),
                forall|i: int| 0 <= i < n ==> (*methods@[i])@ == mm[i],
                out@ == head2 + blocks(mparts.subrange(0, k as int)),
        {
            out.append("\n\n");
            methods[k].write_to(&mut out);
            proof {
                let u = mparts.subrange(0, k + 1);
                assert(u.drop_last() =~= mparts.subrange(0, k as int));
            }
        }
        assert(mparts.subrange(0, n as int) =~= mparts);
        let ghost head3 = out@;
        let errors = self.errors.refs();
        let ghost em = self@.errors;
        let ghost eparts = em.map_values(|e: ErrorModel| error_text(e));
        let n = errors.len();
        for k in 0..n
            invariant
                n == errors@.len(),
                n == em.len(),
                em == errors_model(self.spec_errors()),
                eparts == em.map_values(|e: ErrorModel| error_text(e)),
                forall|i: int| 0 <= i < n ==> (*errors@[i])@ == em[i],
                out@ == head3 + blocks(eparts.subrange(0, k as int)),
        {
            out.append("\n\n");
            errors[k].write_to(&mut out);
            proof {
                let u = eparts.subrange(0, k + 1);
                assert(u.drop_last() =~= eparts.subrange(0, k as int));
            }
        }
        assert(eparts.subrange(0, n as int) =~= eparts);
        out
    }
}

} // verus!
