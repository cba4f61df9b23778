//! Parser-level behaviour: grammar, attributes, field indexing and the
//! PascalCase gate.
use previous::{parse_schema, ASTType, Compiler};

#[test]
fn test_parse_simple_resource() {
    let schema = "resource User { string name }";
    let result = parse_schema(schema);
    assert!(result.is_ok());
    let program = result.unwrap();
    assert_eq!(program.resources.len(), 1);
    assert_eq!(program.resources[0].name, "User");
    assert_eq!(program.resources[0].fields.len(), 1);
    assert_eq!(program.resources[0].fields[0].name, "name");
}

#[test]
fn test_parse_multiple_fields() {
    let schema = r#"
        resource User {
            string name
            string email
            number age
            bool active
        }
    "#;
    let result = parse_schema(schema);
    assert!(result.is_ok());
    let program = result.unwrap();
    assert_eq!(program.resources[0].fields.len(), 4);
}

#[test]
fn test_parse_optional_field() {
    let schema = "resource User { optional string name }";
    let result = parse_schema(schema);
    assert!(result.is_ok());
    let program = result.unwrap();
    assert!(program.resources[0].fields[0].optional);
    assert!(!program.resources[0].fields[0].nullable);
}

#[test]
fn test_parse_nullable_field() {
    let schema = "resource Settings { nullable bool notifications }";
    let result = parse_schema(schema);
    assert!(result.is_ok());
    let program = result.unwrap();
    assert!(program.resources[0].fields[0].nullable);
    assert!(!program.resources[0].fields[0].optional);
}

#[test]
fn test_parse_default_value() {
    let schema = "resource Config { default(10) number timeout }";
    let result = parse_schema(schema);
    assert!(result.is_ok());
    let program = result.unwrap();
    assert!(program.resources[0].fields[0].default.is_some());
}

#[test]
fn test_parse_list_type() {
    let schema = "resource Names { list string names }";
    let result = parse_schema(schema);
    assert!(result.is_ok());
    let program = result.unwrap();
    match &program.resources[0].fields[0].field_type {
        ASTType::List(inner) => {
            assert_eq!(**inner, ASTType::Primitive("string".to_string()));
        }
        _ => panic!("Expected list type"),
    }
}

#[test]
fn test_parse_named_type() {
    let schema = r#"
        resource User { string name }
        resource Users { list User users }
    "#;
    let result = parse_schema(schema);
    assert!(result.is_ok());
    let program = result.unwrap();
    match &program.resources[1].fields[0].field_type {
        ASTType::List(inner) => {
            assert_eq!(**inner, ASTType::Named("User".to_string()));
        }
        _ => panic!("Expected list of named type"),
    }
}

#[test]
fn test_duplicate_resource_names() {
    let schema = r#"
        resource User { string name }
        resource User { string email }
    "#;
    let program = parse_schema(schema).unwrap();
    let result = Compiler::new(program);
    assert!(result.is_err());
}

#[test]
fn test_duplicate_field_names() {
    let schema = "resource User { string name string name }";
    let program = parse_schema(schema).unwrap();
    let result = Compiler::new(program);
    assert!(result.is_err());
}

#[test]
fn test_field_indexing() {
    let schema = r#"
        resource User {
            string name
            string email
            number age
        }
    "#;
    let result = parse_schema(schema);
    let program = result.unwrap();
    for (i, field) in program.resources[0].fields.iter().enumerate() {
        assert_eq!(field.index, i);
    }
}

#[test]
fn test_pascal_case_validation() {
    let schema = "resource user { string name }";
    let result = parse_schema(schema);
    assert!(result.is_err());
}

#[test]
fn test_compile_schema() {
    let schema = r#"
        resource User {
            string name
            optional number age
        }
    "#;
    let result = previous::compile_schema(schema);
    assert!(result.is_ok());
}

#[test]
fn test_pascal_case_accepted() {
    let schema = "resource User { string name }";
    assert!(parse_schema(schema).is_ok());
}

#[test]
fn test_pascal_case_error_message() {
    let schema = "resource user { string name }";
    let err = parse_schema(schema).unwrap_err();
    assert!(err.contains("PascalCase"));
    assert!(err.contains("user"));
}

#[test]
fn test_parse_empty_schema() {
    let program = parse_schema("").unwrap();
    assert_eq!(program.resources.len(), 0);
}

#[test]
fn test_parse_missing_type_error() {
    let schema = "resource User { name }";
    assert!(parse_schema(schema).is_err());
}

#[test]
fn test_parse_missing_field_name_error() {
    let schema = "resource User { string }";
    assert!(parse_schema(schema).is_err());
}

#[test]
fn test_parse_default_missing_literal_error() {
    let schema = "resource User { default() number age }";
    assert!(parse_schema(schema).is_err());
}

#[test]
fn test_parse_unclosed_resource_error() {
    let schema = "resource User { string name";
    assert!(parse_schema(schema).is_err());
}

#[test]
fn test_parse_number_literal_overflow_becomes_zero() {
    // A default literal too large for a signed 64-bit integer lexes as 0.
    let schema = "resource Config { default(99999999999999999999) number timeout }";
    let program = parse_schema(schema).unwrap();
    match &program.resources[0].fields[0].default {
        Some(d) => match &d.value {
            previous::Literal::Number(n) => assert_eq!(*n, 0),
            _ => panic!("Expected number literal"),
        },
        None => panic!("Expected default"),
    }
}

#[test]
fn test_parse_string_default_literal() {
    let schema = "resource Config { default(\"dev\") string env }";
    let program = parse_schema(schema).unwrap();
    match &program.resources[0].fields[0].default {
        Some(d) => match &d.value {
            previous::Literal::String(s) => assert_eq!(s, "dev"),
            _ => panic!("Expected string literal"),
        },
        None => panic!("Expected default"),
    }
}

#[test]
fn test_parse_bool_default_literal() {
    let schema = "resource Config { default(true) bool on }";
    let program = parse_schema(schema).unwrap();
    match &program.resources[0].fields[0].default {
        Some(d) => match &d.value {
            previous::Literal::Bool(b) => assert!(*b),
            _ => panic!("Expected bool literal"),
        },
        None => panic!("Expected default"),
    }
}

#[test]
fn test_lexer_skips_unknown_characters() {
    // '@' and ';' are not part of the grammar; the lexer passes them over.
    let schema = "resource User { @ string name; }";
    let program = parse_schema(schema).unwrap();
    assert_eq!(program.resources[0].fields[0].name, "name");
}

#[test]
fn test_repeated_attributes_are_idempotent() {
    let schema = "resource User { optional optional nullable string name }";
    let program = parse_schema(schema).unwrap();
    assert!(program.resources[0].fields[0].optional);
    assert!(program.resources[0].fields[0].nullable);
}

#[test]
fn test_repeated_default_overwrites() {
    let schema = "resource Config { default(1) default(2) number n }";
    let program = parse_schema(schema).unwrap();
    match &program.resources[0].fields[0].default {
        Some(d) => match &d.value {
            previous::Literal::Number(n) => assert_eq!(*n, 2),
            _ => panic!("Expected number literal"),
        },
        None => panic!("Expected default"),
    }
}
