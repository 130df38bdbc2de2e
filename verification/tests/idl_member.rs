//! Interface members and their IDL text.

use zlink::idl::{
    CustomObject, CustomType, Error, Field, Member, Method, Parameter, ReplyErrors, Type, TypeRef,
};

#[test]
fn member_custom_type() {
    let vendor_field = Field::new("vendor", &Type::String, &[]);
    let product_field = Field::new("product", &Type::String, &[]);
    let version_field = Field::new("version", &Type::String, &[]);
    let fields = [&vendor_field, &product_field, &version_field];

    let custom = CustomType::from(CustomObject::new("ServiceInfo", &fields, &[]));
    let member = Member::Custom(custom);

    assert_eq!(member.name(), "ServiceInfo");
    assert_eq!(
        member.to_string(),
        "type ServiceInfo (vendor: string, product: string, version: string)"
    );
}

#[test]
fn member_method() {
    let interfaces_type = Type::Array(TypeRef::new(&Type::String));
    let outputs = vec![
        Parameter::new("vendor", &Type::String, &[]),
        Parameter::new("product", &Type::String, &[]),
        Parameter::new("version", &Type::String, &[]),
        Parameter::new("url", &Type::String, &[]),
        Parameter::new("interfaces", &interfaces_type, &[]),
    ];
    let method = Method::new_owned("GetInfo", vec![], outputs, vec![]);
    let member = Member::Method(method);

    assert_eq!(member.name(), "GetInfo");
    assert_eq!(
        member.to_string(),
        "method GetInfo() -> (vendor: string, product: string, version: string, url: string, interfaces: []string)"
    );
}

#[test]
fn member_error() {
    let interface_field = Field::new("interface", &Type::String, &[]);
    let fields = [&interface_field];

    let error = Error::new("InterfaceNotFound", &fields, &[]);
    let member = Member::Error(error);

    assert_eq!(member.name(), "InterfaceNotFound");
    assert_eq!(member.to_string(), "error InterfaceNotFound (interface: string)");
}

#[test]
fn member_error_without_fields() {
    let member = Member::Error(Error::new("PermissionDenied", &[], &[]));
    assert_eq!(member.name(), "PermissionDenied");
    assert_eq!(member.to_string(), "error PermissionDenied ()");
}

// A type that implements ReplyErrors.
struct MyType;

impl ReplyErrors for MyType {
    fn reply_errors() -> Vec<Error<'static>> {
        vec![Error::new("MyError", &[], &[])]
    }
}

// Another type that implements ReplyErrors, with an owned error definition.
struct OwnedErrorsType;

impl ReplyErrors for OwnedErrorsType {
    fn reply_errors() -> Vec<Error<'static>> {
        vec![Error::new_owned("MyError", vec![], vec![])]
    }
}

#[test]
fn reply_errors() {
    assert_eq!(MyType::reply_errors().len(), 1);
    assert_eq!(MyType::reply_errors()[0].name(), "MyError");
}

#[test]
fn test_reply_errors() {
    let errors = OwnedErrorsType::reply_errors();
    assert_eq!(errors.len(), 1);
    assert_eq!(errors[0].name(), "MyError");
}
