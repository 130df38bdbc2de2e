//! Building IDL definitions by hand, their IDL text, and comparing them with parsed ones.

use zlink::idl::parse;
use zlink::idl::{
    Comment, CustomEnum, CustomObject, CustomType, EnumVariant, Error, Field, Interface, Method,
    Parameter, Type, TypeInfo, TypeRef,
};

#[test]
fn object_creation() {
    let field_x = Field::new("x", &Type::Float, &[]);
    let field_y = Field::new("y", &Type::Float, &[]);
    let fields = [&field_x, &field_y];

    let custom_obj = CustomObject::new("Point", &fields, &[]);
    assert_eq!(custom_obj.name(), "Point");
    assert_eq!(custom_obj.fields().count(), 2);

    // Check the fields individually - order and values.
    let fields = custom_obj.fields().collect::<Vec<_>>();
    assert_eq!(fields[0].name(), "x");
    assert_eq!(fields[0].ty(), &Type::Float);
    assert_eq!(fields[1].name(), "y");
    assert_eq!(fields[1].ty(), &Type::Float);
}

#[test]
fn enum_creation() {
    let red = EnumVariant::new_owned("red", vec![]);
    let green = EnumVariant::new_owned("green", vec![]);
    let blue = EnumVariant::new_owned("blue", vec![]);
    let custom_enum = CustomEnum::new_owned("Color", vec![red, green, blue], vec![]);

    assert_eq!(custom_enum.name(), "Color");
    assert_eq!(custom_enum.variants().count(), 3);

    // Check the variants individually - order and values.
    let variants = custom_enum.variants().collect::<Vec<_>>();
    assert_eq!(variants[0].name(), "red");
    assert_eq!(variants[1].name(), "green");
    assert_eq!(variants[2].name(), "blue");
}

#[test]
fn type_display_object() {
    // Test object display
    let int_type = <i64 as TypeInfo>::type_info();
    let field_x = Field::new("x", &int_type, &[]);
    let field_y = Field::new("y", &int_type, &[]);
    let fields = [&field_x, &field_y];
    let custom_obj = CustomObject::new("Point", &fields, &[]);
    let custom_type = CustomType::from(custom_obj);
    let buf = custom_type.to_string();
    assert_eq!(buf.as_str(), "type Point (x: int, y: int)");
}

#[test]
fn type_display_enum() {
    // Test enum display
    let north = EnumVariant::new("north", &[]);
    let south = EnumVariant::new("south", &[]);
    let east = EnumVariant::new("east", &[]);
    let west = EnumVariant::new("west", &[]);
    let direction_variants = [&north, &south, &east, &west];
    let custom_enum = CustomEnum::new("Direction", &direction_variants, &[]);
    let custom_type = CustomType::from(custom_enum);
    let buf = custom_type.to_string();
    assert_eq!(buf.as_str(), "type Direction (north, south, east, west)");
}

#[test]
fn owned_types() {
    // Test owned object
    let string_type = <&str as TypeInfo>::type_info();
    let int_type = <i64 as TypeInfo>::type_info();
    let fields = vec![
        Field::new("name", &string_type, &[]),
        Field::new("age", &int_type, &[]),
    ];
    let custom_obj = CustomObject::new_owned("Person", fields, vec![]);
    assert_eq!(custom_obj.name(), "Person");
    let buf = custom_obj.to_string();
    assert_eq!(buf.as_str(), "type Person (name: string, age: int)");

    // Test owned enum
    let custom_enum = CustomEnum::new_owned(
        "Size",
        vec![
            EnumVariant::new_owned("small", vec![]),
            EnumVariant::new_owned("medium", vec![]),
            EnumVariant::new_owned("large", vec![]),
        ],
        vec![],
    );
    assert_eq!(custom_enum.name(), "Size");
    let buf = custom_enum.to_string();
    assert_eq!(buf.as_str(), "type Size (small, medium, large)");
}

#[test]
fn error_creation() {
    let message_field = Field::new("message", &Type::String, &[]);
    let code_field = Field::new("code", &Type::Int, &[]);
    let fields = [&message_field, &code_field];

    let error = Error::new("InvalidInput", &fields, &[]);
    assert_eq!(error.name(), "InvalidInput");
    assert_eq!(error.fields().count(), 2);
    assert!(!error.has_no_fields());

    // Check the fields individually - order and values.
    let fields_vec: Vec<_> = error.fields().collect();
    assert_eq!(fields_vec[0].name(), "message");
    assert_eq!(fields_vec[0].ty(), &Type::String);
    assert_eq!(fields_vec[1].name(), "code");
    assert_eq!(fields_vec[1].ty(), &Type::Int);
}

#[test]
fn error_no_fields() {
    let error = Error::new("UnknownError", &[], &[]);
    assert_eq!(error.name(), "UnknownError");
    assert!(error.has_no_fields());
}

#[test]
fn error_display_with_comments() {

    let comment1 = Comment::new("Authentication failed");
    let comment2 = Comment::new("Invalid credentials provided");
    let comments = [&comment1, &comment2];

    let message_field = Field::new("message", &Type::String, &[]);
    let code_field = Field::new("code", &Type::Int, &[]);
    let fields = [&message_field, &code_field];

    let error = Error::new("AuthError", &fields, &comments);
    let displayed = error.to_string();
    assert_eq!(
        displayed,
        "# Authentication failed\n# Invalid credentials provided\nerror AuthError (message: string, code: int)"
    );
}

#[test]
fn custom_object_display_with_comments() {
    let comment1 = Comment::new("User data structure");
    let comment2 = Comment::new("Contains basic user information");
    let comments = [&comment1, &comment2];

    let name_field = Field::new("name", &Type::String, &[]);
    let age_field = Field::new("age", &Type::Int, &[]);
    let fields = [&name_field, &age_field];

    let custom_object = CustomObject::new("User", &fields, &comments);
    let displayed = custom_object.to_string();
    assert_eq!(
        displayed,
        "# User data structure\n# Contains basic user information\ntype User (name: string, age: int)"
    );
}

#[test]
fn method_creation() {
    let input = Parameter::new("id", &Type::Int, &[]);
    let output = Parameter::new("name", &Type::String, &[]);
    let inputs = [&input];
    let outputs = [&output];

    let method = Method::new("GetName", &inputs, &outputs, &[]);
    assert_eq!(method.name(), "GetName");
    assert_eq!(method.inputs().count(), 1);
    assert_eq!(method.outputs().count(), 1);
    assert!(!method.has_no_inputs());
    assert!(!method.has_no_outputs());

    // Check the parameters individually - order and values.
    let inputs_vec: Vec<_> = method.inputs().collect();
    assert_eq!(inputs_vec[0].name(), "id");
    assert_eq!(inputs_vec[0].ty(), &Type::Int);

    let outputs_vec: Vec<_> = method.outputs().collect();
    assert_eq!(outputs_vec[0].name(), "name");
    assert_eq!(outputs_vec[0].ty(), &Type::String);
}

#[test]
fn org_varlink_service_interface() {

    // Build the org.varlink.service interface as our test case
    let interfaces_type = Type::Array(TypeRef::new(&Type::String));
    let get_info_outputs = [
        &Parameter::new("vendor", &Type::String, &[]),
        &Parameter::new("product", &Type::String, &[]),
        &Parameter::new("version", &Type::String, &[]),
        &Parameter::new("url", &Type::String, &[]),
        &Parameter::new("interfaces", &interfaces_type, &[]),
    ];
    let get_info = Method::new("GetInfo", &[], &get_info_outputs, &[]);

    let get_interface_desc_inputs = [&Parameter::new("interface", &Type::String, &[])];
    let get_interface_desc_outputs = [&Parameter::new("description", &Type::String, &[])];
    let get_interface_desc = Method::new(
        "GetInterfaceDescription",
        &get_interface_desc_inputs,
        &get_interface_desc_outputs,
        &[],
    );

    let interface_not_found_fields = [&Field::new("interface", &Type::String, &[])];
    let interface_not_found = Error::new("InterfaceNotFound", &interface_not_found_fields, &[]);

    let method_not_found_fields = [&Field::new("method", &Type::String, &[])];
    let method_not_found = Error::new("MethodNotFound", &method_not_found_fields, &[]);

    let method_not_impl_fields = [&Field::new("method", &Type::String, &[])];
    let method_not_impl = Error::new("MethodNotImplemented", &method_not_impl_fields, &[]);

    let invalid_param_fields = [&Field::new("parameter", &Type::String, &[])];
    let invalid_param = Error::new("InvalidParameter", &invalid_param_fields, &[]);

    let permission_denied = Error::new("PermissionDenied", &[], &[]);
    let expected_more = Error::new("ExpectedMore", &[], &[]);

    let methods = &[&get_info, &get_interface_desc];
    let errors = &[
        &interface_not_found,
        &method_not_found,
        &method_not_impl,
        &invalid_param,
        &permission_denied,
        &expected_more,
    ];

    let interface = Interface::new("org.varlink.service", methods, &[], errors, &[]);

    assert_eq!(interface.name(), "org.varlink.service");
    assert_eq!(interface.methods().count(), 2);
    assert_eq!(interface.errors().count(), 6);
    assert!(!interface.is_empty());

    // Check method count
    assert_eq!(interface.methods().count(), 2);

    // Check error count
    assert_eq!(interface.errors().count(), 6);

    // Test Display output
    let idl = interface.to_string();
    assert!(idl.as_str().starts_with("interface org.varlink.service"));
    assert!(idl.as_str().contains("method GetInfo()"));
    assert!(idl
        .as_str()
        .contains("method GetInterfaceDescription(interface: string)"));
    assert!(idl
        .as_str()
        .contains("error InterfaceNotFound (interface: string)"));
    assert!(idl.as_str().contains("error PermissionDenied ()"));

    // Test parsing the official org.varlink.service IDL and compare with manually constructed
        {

        const ORG_VARLINK_SERVICE_IDL: &str = r#"interface org.varlink.service

method GetInfo() -> (
  vendor: string,
  product: string,
  version: string,
  url: string,
  interfaces: []string
)

method GetInterfaceDescription(interface: string) -> (description: string)

error InterfaceNotFound (interface: string)

error MethodNotFound (method: string)

error MethodNotImplemented (method: string)

error InvalidParameter (parameter: string)

error PermissionDenied ()

error ExpectedMore ()
"#;

        let parsed_interface = parse::parse_interface(ORG_VARLINK_SERVICE_IDL)
            .expect("Failed to parse org.varlink.service IDL");

        // Compare the parsed interface with our manually constructed one
        assert_eq!(parsed_interface, interface);
    }
}

#[test]
fn systemd_resolved_interface_parsing() {

    // Manually construct the systemd-resolved interface for comparison.

    // Define types used in the interface.
    let optional_int_type = Type::Optional(TypeRef::new(&Type::Int));
    let int_array_type = Type::Array(TypeRef::new(&Type::Int));
    let optional_string_type = Type::Optional(TypeRef::new(&Type::String));
    let optional_int_array_type = Type::Optional(TypeRef::new(&int_array_type));

    // Build ResolvedAddress custom type.
    let resolved_address_fields = [
        &Field::new("ifindex", &optional_int_type, &[]),
        &Field::new("family", &Type::Int, &[]),
        &Field::new("address", &int_array_type, &[]),
    ];
    let resolved_address = CustomType::from(CustomObject::new(
        "ResolvedAddress",
        &resolved_address_fields,
        &[],
    ));

    // Build ResolvedName custom type.
    let resolved_name_fields = [
        &Field::new("ifindex", &optional_int_type, &[]),
        &Field::new("name", &Type::String, &[]),
    ];
    let resolved_name = CustomType::from(CustomObject::new(
        "ResolvedName",
        &resolved_name_fields,
        &[],
    ));

    // Build ResourceKey custom type.
    let resource_key_fields = [
        &Field::new("class", &Type::Int, &[]),
        &Field::new("type", &Type::Int, &[]),
        &Field::new("name", &Type::String, &[]),
    ];
    let resource_key =
        CustomType::from(CustomObject::new("ResourceKey", &resource_key_fields, &[]));

    // Build ResourceRecord custom type (references ResourceKey).
    let resource_key_type = Type::Custom("ResourceKey");
    let resource_record_fields = [
        &Field::new("key", &resource_key_type, &[]),
        &Field::new("priority", &optional_int_type, &[]),
        &Field::new("weight", &optional_int_type, &[]),
        &Field::new("port", &optional_int_type, &[]),
        &Field::new("name", &optional_string_type, &[]),
        &Field::new("address", &optional_int_array_type, &[]),
    ];
    let resource_record = CustomType::from(CustomObject::new(
        "ResourceRecord",
        &resource_record_fields,
        &[],
    ));

    // Build methods.
    let resolved_address_array_type =
        Type::Array(TypeRef::new(&Type::Custom("ResolvedAddress")));
    let resolved_name_array_type = Type::Array(TypeRef::new(&Type::Custom("ResolvedName")));

    let resolve_hostname_inputs = [
        &Parameter::new("ifindex", &optional_int_type, &[]),
        &Parameter::new("name", &Type::String, &[]),
        &Parameter::new("family", &optional_int_type, &[]),
        &Parameter::new("flags", &optional_int_type, &[]),
    ];
    let resolve_hostname_outputs = [
        &Parameter::new("addresses", &resolved_address_array_type, &[]),
        &Parameter::new("name", &Type::String, &[]),
        &Parameter::new("flags", &Type::Int, &[]),
    ];
    let resolve_hostname = Method::new(
        "ResolveHostname",
        &resolve_hostname_inputs,
        &resolve_hostname_outputs,
        &[],
    );

    let resolve_address_inputs = [
        &Parameter::new("ifindex", &optional_int_type, &[]),
        &Parameter::new("family", &Type::Int, &[]),
        &Parameter::new("address", &int_array_type, &[]),
        &Parameter::new("flags", &optional_int_type, &[]),
    ];
    let resolve_address_outputs = [
        &Parameter::new("names", &resolved_name_array_type, &[]),
        &Parameter::new("flags", &Type::Int, &[]),
    ];
    let resolve_address = Method::new(
        "ResolveAddress",
        &resolve_address_inputs,
        &resolve_address_outputs,
        &[],
    );

    // Build errors.
    let no_name_servers = Error::new("NoNameServers", &[], &[]);
    let query_timed_out = Error::new("QueryTimedOut", &[], &[]);

    let dnssec_validation_failed_fields = [
        &Field::new("result", &Type::String, &[]),
        &Field::new("extendedDNSErrorCode", &optional_int_type, &[]),
        &Field::new("extendedDNSErrorMessage", &optional_string_type, &[]),
    ];
    let dnssec_validation_failed = Error::new(
        "DNSSECValidationFailed",
        &dnssec_validation_failed_fields,
        &[],
    );

    let dns_error_fields = [
        &Field::new("rcode", &Type::Int, &[]),
        &Field::new("extendedDNSErrorCode", &optional_int_type, &[]),
        &Field::new("extendedDNSErrorMessage", &optional_string_type, &[]),
    ];
    let dns_error = Error::new("DNSError", &dns_error_fields, &[]);

    // Build the complete interface.
    let custom_types = &[
        &resolved_address,
        &resolved_name,
        &resource_key,
        &resource_record,
    ];
    let methods = &[&resolve_hostname, &resolve_address];
    let errors = &[
        &no_name_servers,
        &query_timed_out,
        &dnssec_validation_failed,
        &dns_error,
    ];

    let interface = Interface::new("io.systemd.Resolve", methods, custom_types, errors, &[]);

    // Test parsing the IDL and compare with manually constructed interface.
    const SYSTEMD_RESOLVED_IDL: &str = r#"interface io.systemd.Resolve

type ResolvedAddress(
ifindex: ?int,
family: int,
address: []int
)

type ResolvedName(
ifindex: ?int,
name: string
)

type ResourceKey(
class: int,
type: int,
name: string
)

type ResourceRecord(
key: ResourceKey,
priority: ?int,
weight: ?int,
port: ?int,
name: ?string,
address: ?[]int
)

method ResolveHostname(
ifindex: ?int,
name: string,
family: ?int,
flags: ?int
) -> (
addresses: []ResolvedAddress,
name: string,
flags: int
)

method ResolveAddress(
ifindex: ?int,
family: int,
address: []int,
flags: ?int
) -> (
names: []ResolvedName,
flags: int
)

error NoNameServers()

error QueryTimedOut()

error DNSSECValidationFailed(
result: string,
extendedDNSErrorCode: ?int,
extendedDNSErrorMessage: ?string
)

error DNSError(
rcode: int,
extendedDNSErrorCode: ?int,
extendedDNSErrorMessage: ?string
)
"#;

    let parsed_interface = parse::parse_interface(SYSTEMD_RESOLVED_IDL)
        .expect("Failed to parse systemd-resolved interface");

    // Verify basic interface properties match.
    assert_eq!(parsed_interface.name(), interface.name());
    assert_eq!(
        parsed_interface.custom_types().count(),
        interface.custom_types().count()
    );
    assert_eq!(
        parsed_interface.methods().count(),
        interface.methods().count()
    );
    assert_eq!(
        parsed_interface.errors().count(),
        interface.errors().count()
    );

    // Check specific type validation - ResolvedAddress.
    let parsed_resolved_address = parsed_interface
        .custom_types()
        .find(|t| t.name() == "ResolvedAddress")
        .expect("ResolvedAddress type should exist");
    let manual_resolved_address = interface
        .custom_types()
        .find(|t| t.name() == "ResolvedAddress")
        .expect("ResolvedAddress type should exist in manual interface");

    // Verify field types in ResolvedAddress.
    let parsed_fields: Vec<_> = parsed_resolved_address
        .as_object()
        .unwrap()
        .fields()
        .collect();
    let manual_fields: Vec<_> = manual_resolved_address
        .as_object()
        .unwrap()
        .fields()
        .collect();
    assert_eq!(parsed_fields.len(), manual_fields.len());

    assert_eq!(parsed_fields[0].name(), "ifindex");
    assert_eq!(
        *parsed_fields[0].ty(),
        Type::Optional(TypeRef::new(&Type::Int))
    );
    assert_eq!(parsed_fields[1].name(), "family");
    assert_eq!(*parsed_fields[1].ty(), Type::Int);
    assert_eq!(parsed_fields[2].name(), "address");
    assert_eq!(
        *parsed_fields[2].ty(),
        Type::Array(TypeRef::new(&Type::Int))
    );

    // Check method parameter types - ResolveHostname.
    let parsed_resolve_hostname = parsed_interface
        .methods()
        .find(|m| m.name() == "ResolveHostname")
        .expect("ResolveHostname method should exist");
    let manual_resolve_hostname = interface
        .methods()
        .find(|m| m.name() == "ResolveHostname")
        .expect("ResolveHostname method should exist in manual interface");

    let parsed_inputs: Vec<_> = parsed_resolve_hostname.inputs().collect();
    let manual_inputs: Vec<_> = manual_resolve_hostname.inputs().collect();
    assert_eq!(parsed_inputs.len(), manual_inputs.len());

    // Verify input parameter types.
    assert_eq!(parsed_inputs[0].name(), "ifindex");
    assert_eq!(
        *parsed_inputs[0].ty(),
        Type::Optional(TypeRef::new(&Type::Int))
    );
    assert_eq!(parsed_inputs[1].name(), "name");
    assert_eq!(*parsed_inputs[1].ty(), Type::String);
    assert_eq!(parsed_inputs[2].name(), "family");
    assert_eq!(
        *parsed_inputs[2].ty(),
        Type::Optional(TypeRef::new(&Type::Int))
    );

    // Verify output parameter types.
    let parsed_outputs: Vec<_> = parsed_resolve_hostname.outputs().collect();
    assert_eq!(parsed_outputs[0].name(), "addresses");
    assert_eq!(
        *parsed_outputs[0].ty(),
        Type::Array(TypeRef::new(&Type::Custom("ResolvedAddress")))
    );
    assert_eq!(parsed_outputs[1].name(), "name");
    assert_eq!(*parsed_outputs[1].ty(), Type::String);
    assert_eq!(parsed_outputs[2].name(), "flags");
    assert_eq!(*parsed_outputs[2].ty(), Type::Int);

    // Check error field types - DNSError.
    let parsed_dns_error = parsed_interface
        .errors()
        .find(|e| e.name() == "DNSError")
        .expect("DNSError should exist");
    let dns_error_fields: Vec<_> = parsed_dns_error.fields().collect();

    assert_eq!(dns_error_fields[0].name(), "rcode");
    assert_eq!(*dns_error_fields[0].ty(), Type::Int);
    assert_eq!(dns_error_fields[1].name(), "extendedDNSErrorCode");
    assert_eq!(
        *dns_error_fields[1].ty(),
        Type::Optional(TypeRef::new(&Type::Int))
    );
    assert_eq!(dns_error_fields[2].name(), "extendedDNSErrorMessage");
    assert_eq!(
        *dns_error_fields[2].ty(),
        Type::Optional(TypeRef::new(&Type::String))
    );

    // Verify no-field errors work.
    let parsed_no_name_servers = parsed_interface
        .errors()
        .find(|e| e.name() == "NoNameServers")
        .expect("NoNameServers should exist");
    assert_eq!(parsed_no_name_servers.fields().count(), 0);

    // Compare the parsed interface with our manually constructed one.
    assert_eq!(parsed_interface, interface);
}

#[test]
fn comprehensive_enum_with_per_variant_comments() {
    // Test enum-level comments plus per-variant comments
    let enum_comment = Comment::new("Status enumeration with detailed docs");

    let active_comment = Comment::new("System is operational");
    let inactive_comment = Comment::new("System is stopped");
    let pending_comment = Comment::new("System is starting up");

    let var1 = EnumVariant::new_owned("active", vec![active_comment]);
    let var2 = EnumVariant::new_owned("inactive", vec![inactive_comment]);
    let var3 = EnumVariant::new_owned("pending", vec![pending_comment]);

    let custom_enum =
        CustomEnum::new_owned("SystemStatus", vec![var1, var2, var3], vec![enum_comment]);

    // Test that we can access all the information
    assert_eq!(custom_enum.name(), "SystemStatus");
    assert_eq!(custom_enum.variants().count(), 3);
    assert_eq!(custom_enum.comments().count(), 1);

    // Test display output includes both enum and variant comments
    let displayed = custom_enum.to_string();

    // Should contain enum comment
    assert!(displayed.contains("Status enumeration with detailed docs"));
    // Should contain variant comments on separate lines
    assert!(displayed.contains("# System is operational\n\tactive"));
    assert!(displayed.contains("# System is stopped\n\tinactive"));
    assert!(displayed.contains("# System is starting up\n\tpending"));

    println!("✓ Comprehensive enum display: {}", displayed);
}
