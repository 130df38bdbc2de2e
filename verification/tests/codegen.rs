use zlink::codegen::output_file_name;

#[test]
fn output_file_name_drops_extension() {
    assert_eq!(output_file_name("example.idl"), "example.rs");
    assert_eq!(output_file_name("org.example.ftl.varlink"), "org_example_ftl.rs");
}

#[test]
fn output_file_name_edge_cases() {
    assert_eq!(output_file_name("noext"), "noext.rs");
    assert_eq!(output_file_name(".hidden"), "_hidden.rs");
    assert_eq!(output_file_name(".a.b"), "_a.rs");
    assert_eq!(output_file_name("a."), "a.rs");
}
