//! Interface Definition Language (IDL) support for Varlink.
//!
//! The types here describe interfaces: their methods, errors and custom types. `parse` reads them
//! from IDL text, and the `to_string` methods write them back as IDL text.

pub mod model;

pub mod grammar;

pub mod render;

pub mod list;
pub use list::List;

pub mod comment;
pub use comment::Comment;

pub mod enum_variant;
pub use enum_variant::EnumVariant;

pub mod types;
pub use types::{Field, Parameter, Type, TypeRef};

pub mod custom_object;
pub use custom_object::CustomObject;

pub mod custom_enum;
pub use custom_enum::CustomEnum;

pub mod custom_type;
pub use custom_type::CustomType;

pub mod method;
pub use method::Method;

pub mod error;
pub use error::Error;

pub mod member;
pub use member::Member;

pub mod reply_errors;
pub use reply_errors::ReplyErrors;

pub mod interface;
pub use interface::Interface;

pub mod parse;
pub use parse::parse_interface;

pub mod round_trip;

pub mod type_info;
pub use type_info::TypeInfo;

pub mod custom;
