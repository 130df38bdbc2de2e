use zlink::idl::parse::{
    parse_custom_type_panics, parse_error_panics, parse_field_panics, parse_interface_panics,
    parse_method_panics, parse_type_panics,
};
use zlink::idl::parse::{parse_field, parse_type};

#[test]
fn type_panics_on_closing_paren_first() {
    assert!(parse_type_panics(")"));
    assert!(parse_type_panics("?)"));
    assert!(parse_type_panics("[])"));
    assert!(parse_type_panics("[string])"));
}

#[test]
fn type_does_not_panic_on_ordinary_input() {
    assert!(!parse_type_panics("string"));
    assert!(!parse_type_panics("?[]int"));
    assert!(!parse_type_panics("(a, b)"));
    assert!(!parse_type_panics("(name: string)"));
    assert!(!parse_type_panics("()"));
    assert!(!parse_type_panics(""));
    assert!(!parse_type_panics("("));
    assert!(parse_type("(a, b)").is_ok());
    assert!(parse_type("(").is_err());
}

#[test]
fn field_panics_through_its_type() {
    assert!(parse_field_panics("name: )"));
    assert!(parse_field_panics("name: (a: ))"));
    assert!(!parse_field_panics("name: string"));
    assert!(!parse_field_panics("name string"));
    assert!(parse_field("name string").is_err());
}

#[test]
fn definitions_panic_through_their_fields() {
    assert!(parse_method_panics("method F(a: )) -> ()"));
    assert!(!parse_method_panics("method F(a: int) -> ()"));
    assert!(parse_error_panics("error E(a: ))"));
    assert!(!parse_error_panics("error E(a: int)"));
    assert!(parse_custom_type_panics("type T(a: ))"));
    assert!(!parse_custom_type_panics("type T(a: int)"));
    assert!(!parse_custom_type_panics("type T(A, B)"));
}

#[test]
fn interface_panics_through_its_members() {
    assert!(parse_interface_panics("interface org.example.test\nmethod F(a: )) -> ()"));
    assert!(parse_interface_panics(
        "interface org.example.test\ntype T(a: int)\nerror E(b: ))"
    ));
    assert!(!parse_interface_panics("interface org.example.test\nmethod F(a: int) -> ()"));
    assert!(!parse_interface_panics("not an interface"));
}
