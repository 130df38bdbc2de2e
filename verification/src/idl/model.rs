//! Mathematical models of IDL values, in terms of which the contracts of this library are stated.
//!
//! Names and comment texts are modelled as character sequences; lists as sequences, whatever their
//! borrowed or owned representation.

use vstd::prelude::*;

verus! {

/// An enum variant: its name and the texts of its comments.
pub struct VariantModel {
    pub name: Seq<char>,
    pub comments: Seq<Seq<char>>,
}

/// A Varlink type.
pub enum TypeModel {
    Bool,
    Int,
    Float,
    String,
    ForeignObject,
    Optional(Box<TypeModel>),
    Array(Box<TypeModel>),
    Dict(Box<TypeModel>),
    Custom(Seq<char>),
    Enum(Seq<VariantModel>),
    Object(Seq<FieldModel>),
}

/// A field or parameter: its name, its type and the texts of its comments.
pub struct FieldModel {
    pub name: Seq<char>,
    pub ty: TypeModel,
    pub comments: Seq<Seq<char>>,
}

/// A named object type: its name, fields and comments.
pub struct ObjectModel {
    pub name: Seq<char>,
    pub fields: Seq<FieldModel>,
    pub comments: Seq<Seq<char>>,
}

/// A named enum type: its name, variants and comments.
pub struct EnumModel {
    pub name: Seq<char>,
    pub variants: Seq<VariantModel>,
    pub comments: Seq<Seq<char>>,
}

/// A custom type definition.
pub enum CustomTypeModel {
    Object(ObjectModel),
    Enum(EnumModel),
}

/// A method: its name, input and output parameters and comments.
pub struct MethodModel {
    pub name: Seq<char>,
    pub inputs: Seq<FieldModel>,
    pub outputs: Seq<FieldModel>,
    pub comments: Seq<Seq<char>>,
}

/// An error definition: its name, fields and comments.
pub struct ErrorModel {
    pub name: Seq<char>,
    pub fields: Seq<FieldModel>,
    pub comments: Seq<Seq<char>>,
}

/// An interface: its name, members (by kind, each in declaration order) and comments.
pub struct InterfaceModel {
    pub name: Seq<char>,
    pub methods: Seq<MethodModel>,
    pub custom_types: Seq<CustomTypeModel>,
    pub errors: Seq<ErrorModel>,
    pub comments: Seq<Seq<char>>,
}

} // verus!
