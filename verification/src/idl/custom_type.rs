//! Type definition for Varlink IDL custom types.

use vstd::prelude::*;
use vstd::std_specs::cmp::PartialEqSpec;
use super::custom_enum::CustomEnum;
use super::custom_object::CustomObject;
use super::model::CustomTypeModel;
use super::render::custom_type_text;

verus! {

/// A custom type definition in Varlink IDL.
///
/// This can be either a struct-like object type with named fields,
/// or an enum-like type with named variants.
#[derive(Debug)]
pub enum CustomType<'a> {
    /// A struct-like custom type with named fields.
    Object(CustomObject<'a>),
    /// An enum-like custom type with named variants.
    Enum(CustomEnum<'a>),
}

impl<'a> View for CustomType<'a> {
    type V = CustomTypeModel;

    open spec fn view(&self) -> CustomTypeModel {
        match *self {
            CustomType::Object(o) => CustomTypeModel::Object(o@),
            CustomType::Enum(e) => CustomTypeModel::Enum(e@),
        }
    }
}

impl<'a> CustomType<'a> {
    /// The name of the custom type.
    pub open spec fn spec_name(self) -> &'a str {
        match self {
            CustomType::Object(o) => o.spec_name(),
            CustomType::Enum(e) => e.spec_name(),
        }
    }

    /// Returns the name of the custom type.
    pub fn name(&self) -> (r: &'a str)
        ensures
            r == self.spec_name(),
    {
        match self {
            CustomType::Object(obj) => obj.name(),
            CustomType::Enum(enm) => enm.name(),
        }
    }

    /// Returns true if this is an object custom type.
    pub fn is_object(&self) -> (r: bool)
        ensures
            r == (*self is Object),
    {
        match self {
            CustomType::Object(_) => true,
            CustomType::Enum(_) => false,
        }
    }

    /// Returns true if this is an enum custom type.
    pub fn is_enum(&self) -> (r: bool)
        ensures
            r == (*self is Enum),
    {
        match self {
            CustomType::Object(_) => false,
            CustomType::Enum(_) => true,
        }
    }

    /// Returns the object if this is an object custom type.
    pub fn as_object(&self) -> (r: Option<&CustomObject<'a>>)
        ensures
            match *self {
                CustomType::Object(o) => r == Some(&o),
                CustomType::Enum(_) => r is None,
            },
    {
        match self {
            CustomType::Object(obj) => Some(obj),
            CustomType::Enum(_) => None,
        }
    }

    /// Returns the enum if this is an enum custom type.
    pub fn as_enum(&self) -> (r: Option<&CustomEnum<'a>>)
        ensures
            match *self {
                CustomType::Object(_) => r is None,
                CustomType::Enum(e) => r == Some(&e),
            },
    {
        match self {
            CustomType::Object(_) => None,
            CustomType::Enum(enm) => Some(enm),
        }
    }
}

impl<'a> From<CustomObject<'a>> for CustomType<'a> {
    fn from(obj: CustomObject<'a>) -> (r: Self) {
        CustomType::Object(obj)
    }
}

impl<'a> vstd::std_specs::convert::FromSpecImpl<CustomObject<'a>> for CustomType<'a> {
    open spec fn obeys_from_spec() -> bool {
        true
    }

    open spec fn from_spec(v: CustomObject<'a>) -> Self {
        CustomType::Object(v)
    }
}

impl<'a> From<CustomEnum<'a>> for CustomType<'a> {
    fn from(enm: CustomEnum<'a>) -> (r: Self) {
        CustomType::Enum(enm)
    }
}

impl<'a> vstd::std_specs::convert::FromSpecImpl<CustomEnum<'a>> for CustomType<'a> {
    open spec fn obeys_from_spec() -> bool {
        true
    }

    open spec fn from_spec(v: CustomEnum<'a>) -> Self {
        CustomType::Enum(v)
    }
}

impl<'a> PartialEq for CustomType<'a> {
    fn eq(&self, other: &Self) -> (r: bool) {
        match (self, other) {
            (CustomType::Object(a), CustomType::Object(b)) => a == b,
            (CustomType::Enum(a), CustomType::Enum(b)) => a == b,
            _ => false,
        }
    }
}

impl<'a> vstd::std_specs::cmp::PartialEqSpecImpl for CustomType<'a> {
    open spec fn obeys_eq_spec() -> bool {
        true
    }

    open spec fn eq_spec(&self, other: &Self) -> bool {
        match (*self, *other) {
            (CustomType::Object(a), CustomType::Object(b)) => a@.name == b@.name && a@.fields == b@.fields,
            (CustomType::Enum(a), CustomType::Enum(b)) => a@.name == b@.name && a@.variants == b@.variants,
            _ => false,
        }
    }
}

/// Named type definitions are equal exactly when both are objects with the same name and fields,
/// or both are enums with the same name and variants; their own comments do not count.
pub proof fn law_custom_type_eq<'a>(a: CustomType<'a>, b: CustomType<'a>)
    ensures
        a.eq_spec(&b) <==> match (a@, b@) {
            (CustomTypeModel::Object(x), CustomTypeModel::Object(y)) => x.name == y.name
                && x.fields == y.fields,
            (CustomTypeModel::Enum(x), CustomTypeModel::Enum(y)) => x.name == y.name && x.variants
                == y.variants,
            _ => false,
        },
{
}

impl<'a> Eq for CustomType<'a> {
}


impl<'a> CustomType<'a> {
    /// Writes the IDL text of the type definition.
    pub(crate) fn write_to(&self, out: &mut String)
        ensures
            final(out)@ == old(out)@ + custom_type_text(self@),
    {
        match self {
            CustomType::Object(obj) => obj.write_to(out),
            CustomType::Enum(enm) => enm.write_to(out),
        }
    }

    /// The IDL text of the type definition.
    pub fn to_string(&self) -> (r: String)
        ensures
            r@ == custom_type_text(self@),
    {
        let mut out = String::new();
        self.write_to(&mut out);
        out
    }
}

} // verus!
