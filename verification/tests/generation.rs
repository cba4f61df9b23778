//! The rendered artifacts: TypeScript client and Rust server text.
use previous::compile_schema;

#[test]
fn test_code_generation_simple_resource() {
    let schema = r#"
        resource User {
            string name
            number age
            bool active
        }
    "#;
    let output = compile_schema(schema).unwrap();

    // Check TypeScript client generation
    assert!(output.generated_code.typescript_client.contains("export interface IUser"));
    assert!(output.generated_code.typescript_client.contains("export class User"));
    assert!(output.generated_code.typescript_client.contains("BinaryReader"));
    assert!(output.generated_code.typescript_client.contains("readString()"));
    assert!(output.generated_code.typescript_client.contains("readNumber()"));
    assert!(output.generated_code.typescript_client.contains("readBool()"));
    assert!(output.generated_code.typescript_client.contains("getName()"));
    assert!(output.generated_code.typescript_client.contains("toJSON()"));

    // Check Rust server generation
    assert!(output.generated_code.rust_server.contains("pub struct User"));
    assert!(output.generated_code.rust_server.contains("pub name: String"));
    assert!(output.generated_code.rust_server.contains("pub age: i64"));
    assert!(output.generated_code.rust_server.contains("pub active: bool"));
    assert!(output.generated_code.rust_server.contains("pub fn new()"));
    assert!(output.generated_code.rust_server.contains("pub fn name(mut self"));
    assert!(output.generated_code.rust_server.contains("pub fn encode("));
}

#[test]
fn test_code_generation_optional_fields() {
    let schema = r#"
        resource User {
            string name
            optional number age
        }
    "#;
    let output = compile_schema(schema).unwrap();

    // TypeScript should have optional field
    assert!(output.generated_code.typescript_client.contains("age?: number"));

    // Rust should use Option
    assert!(output.generated_code.rust_server.contains("pub age: Option<i64>"));
    assert!(output.generated_code.rust_server.contains("Value::Absent"));
}

#[test]
fn test_code_generation_nullable_fields() {
    let schema = r#"
        resource Settings {
            nullable bool notifications
        }
    "#;
    let output = compile_schema(schema).unwrap();

    // TypeScript should have optional field
    assert!(output.generated_code.typescript_client.contains("notifications?: boolean"));

    // Rust should use Option
    assert!(output.generated_code.rust_server.contains("pub notifications: Option<bool>"));
    assert!(output.generated_code.rust_server.contains("Value::Null"));
}

#[test]
fn test_code_generation_list_types() {
    let schema = r#"
        resource Names {
            list string names
        }
    "#;
    let output = compile_schema(schema).unwrap();

    // TypeScript array type
    assert!(output.generated_code.typescript_client.contains("names: string[]"));
    assert!(output.generated_code.typescript_client.contains("readU32()"));

    // Rust Vec type
    assert!(output.generated_code.rust_server.contains("pub names: Vec<String>"));
    assert!(output.generated_code.rust_server.contains("Value::List"));
}

#[test]
fn test_code_generation_nested_resources() {
    let schema = r#"
        resource User { string name }
        resource Profile { User user }
    "#;
    let output = compile_schema(schema).unwrap();

    // TypeScript nested type
    assert!(output.generated_code.typescript_client.contains("export interface IUser"));
    assert!(output.generated_code.typescript_client.contains("export interface IProfile"));
    assert!(output.generated_code.typescript_client.contains("user: IUser"));

    // Rust nested type
    assert!(output.generated_code.rust_server.contains("pub struct User"));
    assert!(output.generated_code.rust_server.contains("pub struct Profile"));
    assert!(output.generated_code.rust_server.contains("pub user: User"));
}

#[test]
fn test_code_generation_multiple_resources() {
    let schema = r#"
        resource User { string name }
        resource Post { string title }
        resource Comment { string text }
    "#;
    let output = compile_schema(schema).unwrap();

    // All resources should be generated
    assert!(output.generated_code.typescript_client.contains("export class User"));
    assert!(output.generated_code.typescript_client.contains("export class Post"));
    assert!(output.generated_code.typescript_client.contains("export class Comment"));

    assert!(output.generated_code.rust_server.contains("pub struct User"));
    assert!(output.generated_code.rust_server.contains("pub struct Post"));
    assert!(output.generated_code.rust_server.contains("pub struct Comment"));
}

#[test]
fn test_typescript_getter_methods() {
    let schema = r#"
        resource User {
            string name
            number age
        }
    "#;
    let output = compile_schema(schema).unwrap();

    // Should have capitalized getter methods
    assert!(output.generated_code.typescript_client.contains("getName()"));
    assert!(output.generated_code.typescript_client.contains("getAge()"));
}

#[test]
fn test_rust_builder_pattern() {
    let schema = r#"
        resource User {
            string name
            number age
        }
    "#;
    let output = compile_schema(schema).unwrap();

    // Should have builder-style setters
    assert!(output
        .generated_code
        .rust_server
        .contains("pub fn name(mut self, value: String) -> Self"));
    assert!(output
        .generated_code
        .rust_server
        .contains("pub fn age(mut self, value: i64) -> Self"));
    assert!(output.generated_code.rust_server.contains("self.name = value"));
    assert!(output.generated_code.rust_server.contains("self.age = value"));
    assert!(output.generated_code.rust_server.contains("self\n"));
}

#[test]
fn test_generated_code_headers() {
    let schema = r#"
        resource User { string name }
    "#;
    let output = compile_schema(schema).unwrap();

    // Check headers
    assert!(output.generated_code.typescript_client.contains("Generated by Previous Compiler"));
    assert!(output.generated_code.typescript_client.contains("DO NOT EDIT"));
    assert!(output.generated_code.rust_server.contains("Generated by Previous Compiler"));
    assert!(output.generated_code.rust_server.contains("DO NOT EDIT"));
}

#[test]
fn test_rust_imports() {
    let schema = r#"
        resource User { string name }
    "#;
    let output = compile_schema(schema).unwrap();

    // Should import necessary types
    assert!(output
        .generated_code
        .rust_server
        .contains("use previous::{Value, FieldValue, BinaryEncoder, IRType, IRProgram}"));
}

#[test]
fn test_typescript_binary_reader_utility() {
    let schema = r#"
        resource User { string name }
    "#;
    let output = compile_schema(schema).unwrap();

    // Should have BinaryReader class
    assert!(output.generated_code.typescript_client.contains("class BinaryReader"));
    assert!(output.generated_code.typescript_client.contains("private buffer: Uint8Array"));
    assert!(output.generated_code.typescript_client.contains("private offset: number"));
    assert!(output.generated_code.typescript_client.contains("readString()"));
    assert!(output.generated_code.typescript_client.contains("readNumber()"));
    assert!(output.generated_code.typescript_client.contains("readBool()"));
    assert!(output.generated_code.typescript_client.contains("readU32()"));
    assert!(output.generated_code.typescript_client.contains("readByte()"));
}

#[test]
fn test_rust_to_value_conversion() {
    let schema = r#"
        resource User {
            string name
            number age
        }
    "#;
    let output = compile_schema(schema).unwrap();

    // Should have to_value method
    assert!(output.generated_code.rust_server.contains("fn to_value(&self) -> Value"));
    assert!(output.generated_code.rust_server.contains("Value::Resource(vec!["));
    assert!(output.generated_code.rust_server.contains("FieldValue {"));
}
