//! Error construction, formatting, and the front-end options.
use previous::{CliOptions, CompileError, CompiledOutput};

#[test]
fn test_compile_error_new() {
    let e = CompileError::new("boom".to_string());
    assert_eq!(e.message, "boom");
    assert!(e.file.is_none());
    assert!(e.line.is_none());
    assert!(e.column.is_none());
}

#[test]
fn test_compile_error_format_plain() {
    let e = CompileError::new("missing brace".to_string());
    assert_eq!(e.format(), "Error: missing brace");
}

#[test]
fn test_compile_error_format_with_file() {
    let e = CompileError::new("missing brace".to_string()).with_file("schema.pr".to_string());
    assert_eq!(e.format(), "Error in schema.pr: missing brace");
}

#[test]
fn test_compile_error_format_with_location() {
    let e = CompileError::new("missing brace".to_string())
        .with_file("schema.pr".to_string())
        .with_location(12, 34);
    assert_eq!(e.format(), "Error in schema.pr at line 12, column 34: missing brace");
}

#[test]
fn test_compile_error_location_without_file() {
    // Without a file the location is not rendered.
    let e = CompileError::new("oops".to_string()).with_location(3, 4);
    assert_eq!(e.format(), "Error: oops");
}

#[test]
fn test_cli_options_default() {
    let options = CliOptions::default();
    assert_eq!(options.input_file, "schema.pr");
    assert_eq!(options.output_dir, "./generated");
    assert!(!options.verbose);
}

#[test]
fn test_compiled_output_new_is_empty() {
    let out = CompiledOutput::new();
    assert_eq!(out.ir.resources.len(), 0);
    assert!(out.generated_code.typescript_client.is_empty());
    assert!(out.generated_code.rust_server.is_empty());
}

#[test]
fn test_duplicate_resource_error_names_resource() {
    let schema = r#"
        resource User { string name }
        resource User { string email }
    "#;
    let program = previous::parse_schema(schema).unwrap();
    let err = previous::Compiler::new(program).unwrap_err();
    assert!(err.contains("Duplicate resource name"));
    assert!(err.contains("User"));
}

#[test]
fn test_duplicate_field_error_names_both() {
    let schema = "resource User { string name string name }";
    let program = previous::parse_schema(schema).unwrap();
    let err = previous::Compiler::new(program).unwrap_err();
    assert!(err.contains("Duplicate field name in User: name"));
}

#[test]
fn test_validation_runs_before_resolution() {
    // The duplicate resource names are reported even though the schema also
    // contains an undefined type: validation gates resolution.
    let schema = r#"
        resource User { Missing thing }
        resource User { string email }
    "#;
    let program = previous::parse_schema(schema).unwrap();
    let err = previous::Compiler::new(program).unwrap_err();
    assert!(err.contains("Duplicate resource name"));
}

#[test]
fn test_compile_schema_reports_undefined_type() {
    let schema = "resource User { Missing thing }";
    let err = previous::compile_schema(schema).unwrap_err();
    assert!(err.contains("Undefined type"));
    assert!(err.contains("Missing"));
}
