//! IDL types, their construction and their IDL text.

use zlink::idl::custom;
use zlink::idl::custom::TypeInfo as CustomTypeInfo;
use zlink::idl::parse::parse_interface;
use zlink::idl::{
    Comment, CustomEnum, CustomObject, CustomType, EnumVariant, Field, Interface, List, Method,
    Parameter, Type, TypeInfo, TypeRef,
};

#[test]
fn comment_creation() {
    let comment = Comment::new("This is a comment");
    assert_eq!(comment.content(), "This is a comment");
    assert_eq!(comment.text(), "This is a comment");
}

#[test]
fn comment_without_hash() {
    let comment = Comment::new("This is not a proper comment");
    assert_eq!(comment.content(), "This is not a proper comment");
    assert_eq!(comment.text(), "This is not a proper comment");
}

#[test]
fn comment_display() {
    let comment = Comment::new("A enum field allowing to gracefully get metadata");
    let buf = comment.to_string();
    assert_eq!(
        buf.as_str(),
        "# A enum field allowing to gracefully get metadata"
    );
}

#[test]
fn custom_enum_display_with_comments() {
    let comment1 = Comment::new("Status enumeration");
    let comment2 = Comment::new("Represents current state");
    let comments = [&comment1, &comment2];

    let var1 = EnumVariant::new("active", &[]);
    let var2 = EnumVariant::new("inactive", &[]);
    let var3 = EnumVariant::new("pending", &[]);
    let variants = [&var1, &var2, &var3];

    let custom_enum = CustomEnum::new("Status", &variants, &comments);
    let displayed = custom_enum.to_string();
    assert_eq!(
        displayed,
        "# Status enumeration\n# Represents current state\ntype Status (active, inactive, pending)"
    );
}

#[test]
fn display_with_variant_comments() {
    let var_comment = Comment::new("The active state");
    let var1 = EnumVariant::new_owned("active", vec![var_comment]);
    let var2 = EnumVariant::new_owned("inactive", vec![]);
    let custom_enum = CustomEnum::new_owned("Status", vec![var1, var2], vec![]);

    let displayed = custom_enum.to_string();
    assert_eq!(
        displayed,
        "type Status (\n\t# The active state\n\tactive\n\tinactive\n)"
    );
}

#[test]
fn formatting_with_and_without_comments() {
    // Test single-line format when no variants have comments
    let var1 = EnumVariant::new("red", &[]);
    let var2 = EnumVariant::new("green", &[]);
    let var3 = EnumVariant::new("blue", &[]);
    let variants_no_comments = [&var1, &var2, &var3];

    let enum_no_comments = CustomEnum::new("Color", &variants_no_comments, &[]);
    let displayed = enum_no_comments.to_string();
    assert_eq!(displayed, "type Color (red, green, blue)");

    // Test multi-line format when any variant has comments
    let comment = Comment::new("Primary color");
    let comment_refs = [&comment];
    let var_with_comment = EnumVariant::new("red", &comment_refs);
    let var_without_comment1 = EnumVariant::new("green", &[]);
    let var_without_comment2 = EnumVariant::new("blue", &[]);
    let variants_with_comments = [
        &var_with_comment,
        &var_without_comment1,
        &var_without_comment2,
    ];

    let enum_with_comments = CustomEnum::new("Color", &variants_with_comments, &[]);
    let displayed = enum_with_comments.to_string();
    assert_eq!(
        displayed,
        "type Color (\n\t# Primary color\n\tred\n\tgreen\n\tblue\n)"
    );
}

#[test]
fn type_from_object() {
    let field_x = Field::new("x", &Type::Float, &[]);
    let field_y = Field::new("y", &Type::Float, &[]);
    let fields = [&field_x, &field_y];

    let custom_obj = CustomObject::new("Point", &fields, &[]);
    let custom_type = CustomType::from(custom_obj);

    assert_eq!(custom_type.name(), "Point");
    assert!(custom_type.is_object());
    assert!(!custom_type.is_enum());
    assert!(custom_type.as_object().is_some());
    assert!(custom_type.as_enum().is_none());
}

#[test]
fn type_from_enum() {
    let red = EnumVariant::new_owned("red", vec![]);
    let green = EnumVariant::new_owned("green", vec![]);
    let blue = EnumVariant::new_owned("blue", vec![]);
    let custom_enum = CustomEnum::new_owned("Color", vec![red, green, blue], vec![]);
    let custom_type = CustomType::from(custom_enum);

    assert_eq!(custom_type.name(), "Color");
    assert!(!custom_type.is_object());
    assert!(custom_type.is_enum());
    assert!(custom_type.as_object().is_none());
    assert!(custom_type.as_enum().is_some());
}

#[test]
fn simple_variant() {
    let variant = EnumVariant::new("active", &[]);
    assert_eq!(variant.name(), "active");
    assert!(!variant.has_comments());

    let displayed = variant.to_string();
    assert_eq!(displayed, "active");
}

#[test]
fn variant_with_comments() {
    let comment = Comment::new("The active state");
    let comments = [&comment];
    let variant = EnumVariant::new("active", &comments);

    assert_eq!(variant.name(), "active");
    assert!(variant.has_comments());

    let displayed = variant.to_string();
    assert_eq!(displayed, "# The active state\nactive");
}

#[test]
fn variant_with_multiple_comments() {
    let comment1 = Comment::new("First comment");
    let comment2 = Comment::new("Second comment");
    let comments = [&comment1, &comment2];
    let variant = EnumVariant::new("complex", &comments);

    assert_eq!(variant.name(), "complex");
    assert!(variant.has_comments());
    assert_eq!(variant.comments().count(), 2);

    let displayed = variant.to_string();
    assert_eq!(displayed, "# First comment\n# Second comment\ncomplex");
}

#[test]
fn owned_variant_with_comments() {
    let comments = vec![
        Comment::new("Owned comment 1"),
        Comment::new("Owned comment 2"),
    ];
    let variant = EnumVariant::new_owned("owned", comments);

    assert_eq!(variant.name(), "owned");
    assert!(variant.has_comments());

    let displayed = variant.to_string();
    assert_eq!(displayed, "# Owned comment 1\n# Owned comment 2\nowned");
}

#[test]
fn field_creation() {
    let ty = <i32>::type_info();
    let field = Field::new("age", &ty, &[]);
    assert_eq!(field.name(), "age");
    assert_eq!(field.ty(), &Type::Int);
}

#[test]
fn parameter_alias() {
    let ty = <&str>::type_info();
    let param: Parameter<'_> = Field::new("input", &ty, &[]);
    assert_eq!(param.name(), "input");
    assert_eq!(param.ty(), &Type::String);
}

#[test]
fn empty_interface() {
    let interface = Interface::new("com.example.empty", &[], &[], &[], &[]);
    assert!(interface.is_empty());
    assert_eq!(interface.methods().count(), 0);
    assert_eq!(interface.errors().count(), 0);
    assert_eq!(interface.custom_types().count(), 0);
}

#[test]
fn list_borrowed() {
    let item_one: &str = "one";
    let item_two: &str = "two";
    let item_three: &str = "three";
    let items: [&&str; 3] = [&item_one, &item_two, &item_three];
    let list: List<'_, &str> = List::Borrowed(&items);

    assert_eq!(list.len(), 3);
    assert!(!list.is_empty());

    let expected = ["one", "two", "three"];
    let mut actual = Vec::<&str>::new();
    for item in list.iter() {
        actual.push(*item);
    }
    assert_eq!(actual.as_slice(), &expected);
}

#[test]
fn list_owned() {
    let vec = vec!["one".to_string(), "two".to_string(), "three".to_string()];
    let list: List<'_, String> = List::from(vec);

    assert_eq!(list.len(), 3);
    assert!(!list.is_empty());

    let collected: Vec<_> = list.iter().map(|s| s.as_str()).collect();
    assert_eq!(collected, vec!["one", "two", "three"]);
}

#[test]
fn list_partial_eq_cross_variant() {
    // Test that borrowed and owned variants compare equal when they have the same content
    let item_one: &str = "one";
    let item_two: &str = "two";
    let item_three: &str = "three";
    let refs: [&&str; 3] = [&item_one, &item_two, &item_three];
    let borrowed_list: List<'_, &str> = List::Borrowed(&refs);

    let owned_list: List<'_, &str> = List::Owned(vec!["one", "two", "three"]);
    assert_eq!(borrowed_list, owned_list);
    assert_eq!(owned_list, borrowed_list);

    // Test that lists with different content are not equal
    let other_refs: [&&str; 2] = [&item_one, &item_two];
    let different_borrowed: List<'_, &str> = List::Borrowed(&other_refs);
    assert_ne!(borrowed_list, different_borrowed);

    let different_owned: List<'_, &str> = List::Owned(vec!["one", "two"]);
    assert_ne!(borrowed_list, different_owned);
}

#[test]
fn method_no_params() {
    let method = Method::new("Ping", &[], &[], &[]);
    assert_eq!(method.name(), "Ping");
    assert!(method.has_no_inputs());
    assert!(method.has_no_outputs());
}

#[test]
fn test_primitive_type_info() {
    assert_eq!(bool::type_info(), Type::Bool);
    assert_eq!(i32::type_info(), Type::Int);
    assert_eq!(<&str>::type_info(), Type::String);
    assert_eq!(String::type_info(), Type::String);
}

#[test]
fn test_optional_type_info() {
    match <Option<i32>>::type_info() {
        Type::Optional(ref optional) => assert_eq!(*optional.inner(), Type::Int),
        _ => panic!("Expected optional type"),
    }
}

#[test]
fn test_array_type_info() {
    match <Vec<String>>::type_info() {
        Type::Array(ref array) => assert_eq!(*array.inner(), Type::String),
        _ => panic!("Expected array type"),
    }
}

#[test]
fn test_complex_type_info() {
    // Test Option<Vec<bool>>
    match <Option<Vec<bool>>>::type_info() {
        Type::Optional(ref optional) => match optional.inner() {
            Type::Array(ref array) => assert_eq!(*array.inner(), Type::Bool),
            _ => panic!("Expected array inside optional"),
        },
        _ => panic!("Expected optional type"),
    }
}

#[test]
fn primitive_type_info() {
    assert_eq!(bool::type_info(), Type::Bool);
    assert_eq!(i32::type_info(), Type::Int);
    assert_eq!(<&str>::type_info(), Type::String);
    assert_eq!(String::type_info(), Type::String);
}

#[test]
fn optional_type_info() {
    match <Option<i32>>::type_info() {
        Type::Optional(optional) => assert_eq!(*optional, Type::Int),
        _ => panic!("Expected optional type"),
    }
}

#[test]
fn array_type_info() {
    match <Vec<String>>::type_info() {
        Type::Array(array) => assert_eq!(*array, Type::String),
        _ => panic!("Expected array type"),
    }
}

#[test]
fn complex_type_info() {
    // Test Option<Vec<bool>>
    match <Option<Vec<bool>>>::type_info() {
        Type::Optional(optional) => match &*optional {
            Type::Array(array) => assert_eq!(**array, Type::Bool),
            _ => panic!("Expected array inside optional"),
        },
        _ => panic!("Expected optional type"),
    }
}

#[test]
fn type_names() {
    assert_eq!(Type::Bool.to_string(), "bool");
    assert_eq!(Type::Int.to_string(), "int");
    assert_eq!(Type::Float.to_string(), "float");
    assert_eq!(Type::String.to_string(), "string");
    assert_eq!(Type::ForeignObject.to_string(), "object");
}

#[test]
fn complex_type_names() {
    let int_type: Type<'static> = Type::Int;
    let string_type: Type<'static> = Type::String;
    let bool_type: Type<'static> = Type::Bool;

    assert_eq!(Type::Optional(TypeRef::new(&int_type)).to_string(), "?int");
    assert_eq!(Type::Array(TypeRef::new(&string_type)).to_string(), "[]string");
    assert_eq!(Type::Dict(TypeRef::new(&bool_type)).to_string(), "[string]bool");

    // Test with owned variants
    assert_eq!(
        Type::Optional(TypeRef::new_owned(Type::Int)).to_string(),
        "?int"
    );
    assert_eq!(
        Type::Array(TypeRef::new_owned(Type::String)).to_string(),
        "[]string"
    );

    // Test complex nested types
    let nested_type = Type::Array(TypeRef::new_owned(Type::Optional(TypeRef::new_owned(
        Type::String,
    ))));
    assert_eq!(nested_type.to_string(), "[]?string");

    // Test inline enum
    let enum_type = Type::Enum(List::from(vec![
        EnumVariant::new("one", &[]),
        EnumVariant::new("two", &[]),
        EnumVariant::new("three", &[]),
    ]));
    assert_eq!(enum_type.to_string(), "(one, two, three)");

    // Test inline struct
    let struct_type = Type::Object(vec![
        Field::new("first", &Type::Int, &[]),
        Field::new("second", &Type::String, &[]),
    ]);
    assert_eq!(struct_type.to_string(), "(first: int, second: string)");
}

#[test]
fn inline_enum_formatting_with_and_without_comments() {
    // Test single-line format when no variants have comments
    let var1 = EnumVariant::new("red", &[]);
    let var2 = EnumVariant::new("green", &[]);
    let var3 = EnumVariant::new("blue", &[]);
    let variants_no_comments = [&var1, &var2, &var3];
    let enum_no_comments = Type::Enum(List::from(&variants_no_comments[..]));

    let buf = enum_no_comments.to_string();
    assert_eq!(buf, "(red, green, blue)");

    // Test multi-line format when any variant has comments
    let primary = Comment::new("Primary color");
    let comment_refs = [&primary];
    let var_with_comment = EnumVariant::new("red", &comment_refs);
    let var_without_comment1 = EnumVariant::new("green", &[]);
    let var_without_comment2 = EnumVariant::new("blue", &[]);
    let variants_with_comments = [
        &var_with_comment,
        &var_without_comment1,
        &var_without_comment2,
    ];
    let enum_with_comments = Type::Enum(List::from(&variants_with_comments[..]));

    let buf = enum_with_comments.to_string();
    assert_eq!(buf, "(\n\t# Primary color\n\tred\n\tgreen\n\tblue\n)");
}

#[test]
fn test_type_names() {
    assert_eq!(Type::Bool.to_string(), "bool");
    assert_eq!(Type::Int.to_string(), "int");
    assert_eq!(Type::Float.to_string(), "float");
    assert_eq!(Type::String.to_string(), "string");
    assert_eq!(Type::ForeignObject.to_string(), "object");
}

#[test]
fn test_complex_type_names() {
    let int_type: Type<'static> = Type::Int;
    let string_type: Type<'static> = Type::String;
    let bool_type: Type<'static> = Type::Bool;

    assert_eq!(
        Type::Optional(TypeRef::borrowed(&int_type)).to_string(),
        "?int"
    );
    assert_eq!(
        Type::Array(TypeRef::borrowed(&string_type)).to_string(),
        "[]string"
    );
    assert_eq!(
        Type::Dict(TypeRef::borrowed(&bool_type)).to_string(),
        "[string]bool"
    );

    // Test with owned variants
    assert_eq!(
        Type::Optional(TypeRef::new_owned(Type::Int)).to_string(),
        "?int"
    );
    assert_eq!(
        Type::Array(TypeRef::new_owned(Type::String)).to_string(),
        "[]string"
    );

    // Test complex nested types
    let nested_type = Type::Array(TypeRef::new_owned(Type::Optional(TypeRef::new_owned(
        Type::String,
    ))));
    assert_eq!(nested_type.to_string(), "[]?string");

    // Test inline enum
    let enum_type = Type::Enum(List::from(vec![
        EnumVariant::new_owned("one", vec![]),
        EnumVariant::new_owned("two", vec![]),
        EnumVariant::new_owned("three", vec![]),
    ]));
    assert_eq!(enum_type.to_string(), "(one, two, three)");

    // Test inline struct
    let struct_type = Type::Object(vec![
        Field::new_owned("first", Type::Int, vec![]),
        Field::new_owned("second", Type::String, vec![]),
    ]);
    assert_eq!(struct_type.to_string(), "(first: int, second: string)");
}

#[test]
fn test_interface_with_comments() {
    let input = r#"
# Interface documentation - line 1
# Interface documentation - line 2
interface org.example.test

method SimpleMethod() -> ()
    "#;

    let interface = parse_interface(input).unwrap();
    assert_eq!(interface.name(), "org.example.test");

    // Check interface comments
    let comments: Vec<_> = interface.comments().collect();
    assert_eq!(comments.len(), 2);
    assert_eq!(comments[0].text(), "Interface documentation - line 1");
    assert_eq!(comments[1].text(), "Interface documentation - line 2");

    // Verify the interface still has its members
    let members =
        interface.methods().count() + interface.custom_types().count() + interface.errors().count();
    assert_eq!(members, 1);
}

#[test]
fn parse_test_parse_interface() {
    let input = r#"
interface org.example.test

type Person (name: string, age: int)

method GetPerson(id: int) -> (person: Person)

error NotFound(id: int)
        "#;

    let interface = parse_interface(input).unwrap();
    assert_eq!(interface.name(), "org.example.test");
    let members =
        interface.methods().count() + interface.custom_types().count() + interface.errors().count();
    assert_eq!(members, 3);
}

// Test implementation for a custom struct type
struct TestPoint;

impl CustomTypeInfo for TestPoint {
    fn type_info() -> custom::Type<'static> {
        let fields = vec![
            Field::new_owned("x", Type::Float, vec![]),
            Field::new_owned("y", Type::Float, vec![]),
        ];
        custom::Type::Object(custom::Object::new_owned("Point", fields, vec![]))
    }
}

// Test implementation for a custom enum type
struct TestStatus;

impl CustomTypeInfo for TestStatus {
    fn type_info() -> custom::Type<'static> {
        custom::Type::Enum(custom::Enum::new_owned(
            "Status",
            vec!["Active", "Inactive", "Pending"],
        ))
    }
}

#[test]
fn custom_struct_type_info() {
    match TestPoint::type_info() {
        custom::Type::Object(obj) => {
            assert_eq!(obj.name(), "Point");
            let fields: Vec<_> = obj.fields().collect();
            assert_eq!(fields.len(), 2);
            assert_eq!(fields[0].name(), "x");
            assert_eq!(fields[0].ty(), &Type::Float);
            assert_eq!(fields[1].name(), "y");
            assert_eq!(fields[1].ty(), &Type::Float);
        }
        _ => panic!("Expected custom object type"),
    }
}

#[test]
fn custom_enum_type_info() {
    match TestStatus::type_info() {
        custom::Type::Enum(enm) => {
            assert_eq!(enm.name(), "Status");
            let variants: Vec<_> = enm.variants().collect();
            assert_eq!(variants.len(), 3);
            assert_eq!(*variants[0], "Active");
            assert_eq!(*variants[1], "Inactive");
            assert_eq!(*variants[2], "Pending");
        }
        _ => panic!("Expected custom enum type"),
    }
}

#[test]
fn const_compatibility() {
    // The type information can be produced for both kinds of custom type.
    let _point_type: custom::Type<'static> = TestPoint::type_info();
    let _status_type: custom::Type<'static> = TestStatus::type_info();
}

#[test]
fn type_name_access() {
    assert_eq!(TestPoint::type_info().name(), "Point");
    assert_eq!(TestStatus::type_info().name(), "Status");
}

#[test]
fn type_variant_checking() {
    assert!(TestPoint::type_info().is_object());
    assert!(!TestPoint::type_info().is_enum());
    assert!(!TestStatus::type_info().is_object());
    assert!(TestStatus::type_info().is_enum());
}

#[test]
fn custom_plain_enum_display() {
    let e = custom::Enum::new_owned("Color", vec!["Red", "Green", "Blue"]);
    assert_eq!(e.to_string(), "type Color (Red, Green, Blue)");
    let t = custom::Type::from(e);
    assert_eq!(t.to_string(), "type Color (Red, Green, Blue)");
    assert!(t.as_enum().is_some());
    assert!(t.as_object().is_none());
}
