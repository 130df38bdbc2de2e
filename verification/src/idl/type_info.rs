//! Type information of Rust types, as Varlink types.

use vstd::prelude::*;
use super::model::TypeModel;
use super::types::{Type, TypeRef};

verus! {

/// `serde_json::Value`, an untyped JSON value.
#[verifier::external_type_specification]
#[verifier::external_body]
pub struct ExJsonValue(serde_json::Value);

/// Provides type information for types that can be used in Varlink interfaces.
pub trait TypeInfo {
    /// The Varlink type of this type.
    spec fn type_info_model() -> TypeModel;

    /// The type information for this type.
    fn type_info() -> (r: Type<'static>)
        ensures
            r@ == Self::type_info_model(),
    ;
}

impl TypeInfo for bool {
    open spec fn type_info_model() -> TypeModel {
        TypeModel::Bool
    }

    fn type_info() -> (r: Type<'static>)
        ensures
            r@ == TypeModel::Bool,
    {
        Type::Bool
    }
}

impl TypeInfo for i8 {
    open spec fn type_info_model() -> TypeModel {
        TypeModel::Int
    }

    fn type_info() -> (r: Type<'static>)
        ensures
            r@ == TypeModel::Int,
    {
        Type::Int
    }
}

impl TypeInfo for i16 {
    open spec fn type_info_model() -> TypeModel {
        TypeModel::Int
    }

    fn type_info() -> (r: Type<'static>)
        ensures
            r@ == TypeModel::Int,
    {
        Type::Int
    }
}

impl TypeInfo for i32 {
    open spec fn type_info_model() -> TypeModel {
        TypeModel::Int
    }

    fn type_info() -> (r: Type<'static>)
        ensures
            r@ == TypeModel::Int,
    {
        Type::Int
    }
}

impl TypeInfo for i64 {
    open spec fn type_info_model() -> TypeModel {
        TypeModel::Int
    }

    fn type_info() -> (r: Type<'static>)
        ensures
            r@ == TypeModel::Int,
    {
        Type::Int
    }
}

impl TypeInfo for u8 {
    open spec fn type_info_model() -> TypeModel {
        TypeModel::Int
    }

    fn type_info() -> (r: Type<'static>)
        ensures
            r@ == TypeModel::Int,
    {
        Type::Int
    }
}

impl TypeInfo for u16 {
    open spec fn type_info_model() -> TypeModel {
        TypeModel::Int
    }

    fn type_info() -> (r: Type<'static>)
        ensures
            r@ == TypeModel::Int,
    {
        Type::Int
    }
}

impl TypeInfo for u32 {
    open spec fn type_info_model() -> TypeModel {
        TypeModel::Int
    }

    fn type_info() -> (r: Type<'static>)
        ensures
            r@ == TypeModel::Int,
    {
        Type::Int
    }
}

impl TypeInfo for u64 {
    open spec fn type_info_model() -> TypeModel {
        TypeModel::Int
    }

    fn type_info() -> (r: Type<'static>)
        ensures
            r@ == TypeModel::Int,
    {
        Type::Int
    }
}

impl<'s> TypeInfo for &'s str {
    open spec fn type_info_model() -> TypeModel {
        TypeModel::String
    }

    fn type_info() -> (r: Type<'static>)
        ensures
            r@ == TypeModel::String,
    {
        Type::String
    }
}

impl TypeInfo for String {
    open spec fn type_info_model() -> TypeModel {
        TypeModel::String
    }

    fn type_info() -> (r: Type<'static>)
        ensures
            r@ == TypeModel::String,
    {
        Type::String
    }
}

impl<T: TypeInfo> TypeInfo for Option<T> {
    open spec fn type_info_model() -> TypeModel {
        TypeModel::Optional(Box::new(T::type_info_model()))
    }

    fn type_info() -> (r: Type<'static>) {
        Type::Optional(TypeRef::new_owned(T::type_info()))
    }
}

impl<T: TypeInfo> TypeInfo for Vec<T> {
    open spec fn type_info_model() -> TypeModel {
        TypeModel::Array(Box::new(T::type_info_model()))
    }

    fn type_info() -> (r: Type<'static>) {
        Type::Array(TypeRef::new_owned(T::type_info()))
    }
}

impl<'s, T: TypeInfo> TypeInfo for &'s [T] {
    open spec fn type_info_model() -> TypeModel {
        TypeModel::Array(Box::new(T::type_info_model()))
    }

    fn type_info() -> (r: Type<'static>) {
        Type::Array(TypeRef::new_owned(T::type_info()))
    }
}

impl TypeInfo for serde_json::Value {
    open spec fn type_info_model() -> TypeModel {
        TypeModel::ForeignObject
    }

    fn type_info() -> (r: Type<'static>)
        ensures
            r@ == TypeModel::ForeignObject,
    {
        Type::ForeignObject
    }
}

/// Rust's types as Varlink types: `bool` is `bool`; every integer type (`i8` to `i64`, `u8` to
/// `u64`) is `int`; `&str` and `String` are `string`; an untyped JSON value is `object`; an
/// `Option` is the optional of its item's type; a `Vec` or a slice is the array of its item's
/// type.
pub proof fn law_type_info_of_rust_types<T: TypeInfo>()
    ensures
        <bool as TypeInfo>::type_info_model() == TypeModel::Bool,
        <i8 as TypeInfo>::type_info_model() == TypeModel::Int,
        <i16 as TypeInfo>::type_info_model() == TypeModel::Int,
        <i32 as TypeInfo>::type_info_model() == TypeModel::Int,
        <i64 as TypeInfo>::type_info_model() == TypeModel::Int,
        <u8 as TypeInfo>::type_info_model() == TypeModel::Int,
        <u16 as TypeInfo>::type_info_model() == TypeModel::Int,
        <u32 as TypeInfo>::type_info_model() == TypeModel::Int,
        <u64 as TypeInfo>::type_info_model() == TypeModel::Int,
        <&str as TypeInfo>::type_info_model() == TypeModel::String,
        <String as TypeInfo>::type_info_model() == TypeModel::String,
        <serde_json::Value as TypeInfo>::type_info_model() == TypeModel::ForeignObject,
        <Option<T> as TypeInfo>::type_info_model() == TypeModel::Optional(
            Box::new(T::type_info_model()),
        ),
        <Vec<T> as TypeInfo>::type_info_model() == TypeModel::Array(Box::new(T::type_info_model())),
        <&[T] as TypeInfo>::type_info_model() == TypeModel::Array(Box::new(T::type_info_model())),
{
}

} // verus!
