//! Custom type definitions: named object types and named enum types whose variants are plain
//! names, and the introspection trait that gives them for Rust types.

use vstd::prelude::*;
use vstd::std_specs::iter::IteratorSpec;
use vstd::string::StringExecFns;
use super::list::List;
use super::render::{joined, object_text};
use crate::text::str_eq;

pub use super::custom_object::CustomObject as Object;

verus! {

/// An enum type definition in Varlink IDL (enum-like with named variants).
#[derive(Debug, Clone)]
pub struct Enum<'a> {
    /// The name of the enum type.
    name: &'a str,
    /// The variants of the enum type.
    variants: List<'a, &'a str>,
}

/// The names of some variants.
pub open spec fn names_model(s: Seq<&str>) -> Seq<Seq<char>> {
    Seq::new(s.len(), |i: int| s[i]@)
}

/// The text of an enum type with plain variants: `type`, its name and its variants in
/// parentheses, separated by commas.
pub open spec fn plain_enum_text(name: Seq<char>, variants: Seq<Seq<char>>) -> Seq<char> {
    "type "@ + name + " ("@ + joined(variants, ", "@) + ")"@
}

impl<'a> Enum<'a> {
    /// The name of the enum type.
    pub closed spec fn spec_name(self) -> &'a str {
        self.name
    }

    /// The variants of the enum type, in order.
    pub closed spec fn spec_variants(self) -> Seq<&'a str> {
        self.variants.items()
    }

    /// Creates a new enum type with the given name and borrowed variants.
    pub fn new(name: &'a str, variants: &'a [&'a &'a str]) -> (r: Self)
        ensures
            r.spec_name() == name,
            r.spec_variants() == List::<'a, &'a str>::Borrowed(variants).items(),
    {
        Self { name, variants: List::Borrowed(variants) }
    }

    /// Creates a new enum type with the given name and owned variants.
    pub fn new_owned(name: &'a str, variants: Vec<&'a str>) -> (r: Self)
        ensures
            r.spec_name() == name,
            r.spec_variants() == variants@,
    {
        Self { name, variants: List::Owned(variants) }
    }

    /// Returns the name of the enum type.
    pub fn name(&self) -> (r: &'a str)
        ensures
            r == self.spec_name(),
    {
        self.name
    }

    /// Returns an iterator over the variants of the enum type.
    pub fn variants(&self) -> (r: std::vec::IntoIter<&&'a str>)
        ensures
            r.remaining().len() == self.spec_variants().len(),
            forall|i: int|
                0 <= i < r.remaining().len() ==> *r.remaining()[i] == self.spec_variants()[i],
    {
        self.variants.iter()
    }

    /// Writes the IDL text of the enum type.
    fn write_to(&self, out: &mut String)
        ensures
            final(out)@ == old(out)@ + plain_enum_text(self.spec_name()@, names_model(self.spec_variants())),
    {
        out.append("type ");
        out.append(self.name);
        out.append(" (");
        let items = self.variants.refs();
        let ghost start = out@;
        let ghost all = names_model(self.spec_variants());
        let n = items.len();
        for k in 0..n
            invariant
                n == items@.len(),
                n == all.len(),
                forall|i: int| 0 <= i < n ==> (**items@[i])@ == all[i],
                out@ == start + joined(all.subrange(0, k as int), ", "@),
        {
            if k > 0 {
                out.append(", ");
            }
            out.append(*items[k]);
            proof {
                let u = all.subrange(0, k + 1);
                assert(u.drop_last() =~= all.subrange(0, k as int));
                assert(u.last() == all[k as int]);
            }
        }
        assert(all.subrange(0, n as int) =~= all);
        out.append(")");
    }

    /// The IDL text of the enum type: `type`, its name and its variants in parentheses.
    pub fn to_string(&self) -> (r: String)
        ensures
            r@ == plain_enum_text(self.spec_name()@, names_model(self.spec_variants())),
    {
        let mut out = String::new();
        self.write_to(&mut out);
        out
    }
}

impl<'a> PartialEq for Enum<'a> {
    /// Enums are equal when their names and variants are.
    fn eq(&self, other: &Self) -> (r: bool) {
        if !str_eq(self.name, other.name) {
            return false;
        }
        let a = self.variants.refs();
        let b = other.variants.refs();
        let ghost x = names_model(self.spec_variants());
        let ghost y = names_model(other.spec_variants());
        if a.len() != b.len() {
            assert(x.len() != y.len());
            return false;
        }
        let n = a.len();
        for k in 0..n
            invariant
                n == a@.len(),
                n == b@.len(),
                n == x.len(),
                n == y.len(),
                x == names_model(self.spec_variants()),
                y == names_model(other.spec_variants()),
                self.spec_name()@ == other.spec_name()@,
                forall|i: int| 0 <= i < n ==> (**a@[i])@ == x[i],
                forall|i: int| 0 <= i < n ==> (**b@[i])@ == y[i],
                forall|i: int| 0 <= i < k ==> x[i] == y[i],
        {
            if !str_eq(*a[k], *b[k]) {
                assert(x[k as int] != y[k as int]);
                return false;
            }
        }
        assert(x =~= y);
        true
    }
}

impl<'a> vstd::std_specs::cmp::PartialEqSpecImpl for Enum<'a> {
    open spec fn obeys_eq_spec() -> bool {
        true
    }

    open spec fn eq_spec(&self, other: &Self) -> bool {
        &&& self.spec_name()@ == other.spec_name()@
        &&& names_model(self.spec_variants()) == names_model(other.spec_variants())
    }
}

/// A custom type definition: an object type or an enum type.
#[derive(Debug)]
pub enum Type<'a> {
    /// A struct-like custom type with named fields.
    Object(Object<'a>),
    /// An enum-like custom type with named variants.
    Enum(Enum<'a>),
}

impl<'a> Type<'a> {
    /// The name of the custom type.
    pub open spec fn spec_name(self) -> &'a str {
        match self {
            Type::Object(o) => o.spec_name(),
            Type::Enum(e) => e.spec_name(),
        }
    }

    /// Returns the name of the custom type.
    pub fn name(&self) -> (r: &'a str)
        ensures
            r == self.spec_name(),
    {
        match self {
            Type::Object(obj) => obj.name(),
            Type::Enum(enm) => enm.name(),
        }
    }

    /// Returns true if this is an object custom type.
    pub fn is_object(&self) -> (r: bool)
        ensures
            r == (*self is Object),
    {
        match self {
            Type::Object(_) => true,
            Type::Enum(_) => false,
        }
    }

    /// Returns true if this is an enum custom type.
    pub fn is_enum(&self) -> (r: bool)
        ensures
            r == (*self is Enum),
    {
        match self {
            Type::Object(_) => false,
            Type::Enum(_) => true,
        }
    }

    /// Returns the object if this is an object custom type.
    pub fn as_object(&self) -> (r: Option<&Object<'a>>)
        ensures
            match *self {
                Type::Object(o) => r == Some(&o),
                Type::Enum(_) => r is None,
            },
    {
        match self {
            Type::Object(obj) => Some(obj),
            Type::Enum(_) => None,
        }
    }

    /// Returns the enum if this is an enum custom type.
    pub fn as_enum(&self) -> (r: Option<&Enum<'a>>)
        ensures
            match *self {
                Type::Object(_) => r is None,
                Type::Enum(e) => r == Some(&e),
            },
    {
        match self {
            Type::Object(_) => None,
            Type::Enum(enm) => Some(enm),
        }
    }

    /// The IDL text of the custom type.
    pub fn to_string(&self) -> (r: String)
        ensures
            match *self {
                Type::Object(o) => r@ == object_text(o@),
                Type::Enum(e) => r@ == plain_enum_text(e.spec_name()@, names_model(e.spec_variants())),
            },
    {
        match self {
            Type::Object(obj) => obj.to_string(),
            Type::Enum(enm) => enm.to_string(),
        }
    }
}

impl<'a> From<Object<'a>> for Type<'a> {
    fn from(obj: Object<'a>) -> (r: Self) {
        Type::Object(obj)
    }
}

impl<'a> vstd::std_specs::convert::FromSpecImpl<Object<'a>> for Type<'a> {
    open spec fn obeys_from_spec() -> bool {
        true
    }

    open spec fn from_spec(v: Object<'a>) -> Self {
        Type::Object(v)
    }
}

impl<'a> From<Enum<'a>> for Type<'a> {
    fn from(enm: Enum<'a>) -> (r: Self) {
        Type::Enum(enm)
    }
}

impl<'a> vstd::std_specs::convert::FromSpecImpl<Enum<'a>> for Type<'a> {
    open spec fn obeys_from_spec() -> bool {
        true
    }

    open spec fn from_spec(v: Enum<'a>) -> Self {
        Type::Enum(v)
    }
}

/// Custom type introspection.
///
/// This trait is similar to [`crate::idl::TypeInfo`] but provides custom type definitions that
/// include the type name and are suitable for IDL generation: while `TypeInfo` gives inline type
/// information, this trait gives named custom type definitions.
pub trait TypeInfo {
    /// The custom type definition of this type, with its name.
    fn type_info() -> Type<'static>;
}

} // verus!
