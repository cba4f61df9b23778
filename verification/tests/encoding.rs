//! The binary wire format: byte-exact encodings, wrappers, and the error
//! conditions of the encoder.
use previous::{parse_schema, BinaryEncoder, FieldValue, IRProgram, IRType, TypeResolver, Value};

fn resolve(schema: &str) -> IRProgram {
    let program = parse_schema(schema).unwrap();
    let resolver = TypeResolver::new(&program).unwrap();
    resolver.resolve(&program).unwrap()
}

#[test]
fn test_encode_string() {
    let mut encoder = BinaryEncoder::new();
    encoder.encode_string("hello");
    let bytes = encoder.finish();

    // Expected: [5, 0, 0, 0, 'h', 'e', 'l', 'l', 'o']
    // u32 length (5) in little-endian + UTF-8 bytes
    assert_eq!(bytes, vec![5, 0, 0, 0, b'h', b'e', b'l', b'l', b'o']);
}

#[test]
fn test_encode_number() {
    let mut encoder = BinaryEncoder::new();
    encoder.encode_number(42);
    let bytes = encoder.finish();

    // Expected: i64(42) in little-endian (8 bytes)
    assert_eq!(bytes, vec![42, 0, 0, 0, 0, 0, 0, 0]);
}

#[test]
fn test_encode_bool_true() {
    let mut encoder = BinaryEncoder::new();
    encoder.encode_bool(true);
    let bytes = encoder.finish();

    assert_eq!(bytes, vec![0x01]);
}

#[test]
fn test_encode_bool_false() {
    let mut encoder = BinaryEncoder::new();
    encoder.encode_bool(false);
    let bytes = encoder.finish();

    assert_eq!(bytes, vec![0x00]);
}

#[test]
fn test_encode_primitive_value() {
    let ir = resolve("resource User { string name }");

    let mut encoder = BinaryEncoder::new();
    let value = Value::String("test".to_string());
    let ir_type = IRType::Primitive("string".to_string());

    let result = encoder.encode_value(&value, &ir_type, &ir);
    assert!(result.is_ok());

    let bytes = encoder.finish();
    // u32(4) + "test"
    assert_eq!(bytes, vec![4, 0, 0, 0, b't', b'e', b's', b't']);
}

#[test]
fn test_encode_list_of_primitives() {
    let ir = resolve("resource Names { list string names }");

    let mut encoder = BinaryEncoder::new();
    let value = Value::List(vec![
        Value::String("a".to_string()),
        Value::String("b".to_string()),
    ]);
    let ir_type = IRType::List(Box::new(IRType::Primitive("string".to_string())));

    let result = encoder.encode_value(&value, &ir_type, &ir);
    assert!(result.is_ok());

    let bytes = encoder.finish();
    // u32(2) count + u32(1)+"a" + u32(1)+"b"
    assert_eq!(
        bytes,
        vec![
            2, 0, 0, 0, // count = 2
            1, 0, 0, 0, b'a', // "a"
            1, 0, 0, 0, b'b', // "b"
        ]
    );
}

#[test]
fn test_encode_list_of_numbers() {
    let ir = resolve("resource Numbers { list number nums }");

    let mut encoder = BinaryEncoder::new();
    let value = Value::List(vec![Value::Number(10), Value::Number(20), Value::Number(30)]);
    let ir_type = IRType::List(Box::new(IRType::Primitive("number".to_string())));

    let result = encoder.encode_value(&value, &ir_type, &ir);
    assert!(result.is_ok());

    let bytes = encoder.finish();
    // u32(3) + i64(10) + i64(20) + i64(30)
    assert_eq!(bytes.len(), 4 + 8 * 3);
    assert_eq!(&bytes[0..4], &[3, 0, 0, 0]); // count
}

#[test]
fn test_encode_empty_list() {
    let ir = resolve("resource Names { list string names }");

    let mut encoder = BinaryEncoder::new();
    let value = Value::List(vec![]);
    let ir_type = IRType::List(Box::new(IRType::Primitive("string".to_string())));

    let result = encoder.encode_value(&value, &ir_type, &ir);
    assert!(result.is_ok());

    let bytes = encoder.finish();
    // u32(0) count only
    assert_eq!(bytes, vec![0, 0, 0, 0]);
}

#[test]
fn test_encode_nullable_null() {
    let ir = resolve("resource Settings { nullable bool notifications }");

    let mut encoder = BinaryEncoder::new();
    let field_value = FieldValue {
        name: "notifications".to_string(),
        value: Value::Null,
        is_optional: false,
        is_nullable: true,
    };

    let result = encoder.encode_field(&field_value, &ir.resources[0].fields[0], &ir);
    assert!(result.is_ok());

    let bytes = encoder.finish();
    // 0x00 for null
    assert_eq!(bytes, vec![0x00]);
}

#[test]
fn test_encode_nullable_present() {
    let ir = resolve("resource Settings { nullable bool notifications }");

    let mut encoder = BinaryEncoder::new();
    let field_value = FieldValue {
        name: "notifications".to_string(),
        value: Value::Bool(true),
        is_optional: false,
        is_nullable: true,
    };

    let result = encoder.encode_field(&field_value, &ir.resources[0].fields[0], &ir);
    assert!(result.is_ok());

    let bytes = encoder.finish();
    // 0x01 for present + 0x01 for true
    assert_eq!(bytes, vec![0x01, 0x01]);
}

#[test]
fn test_encode_optional_absent() {
    let ir = resolve("resource User { optional number age }");

    let mut encoder = BinaryEncoder::new();
    let field_value = FieldValue {
        name: "age".to_string(),
        value: Value::Absent,
        is_optional: true,
        is_nullable: false,
    };

    let result = encoder.encode_field(&field_value, &ir.resources[0].fields[0], &ir);
    assert!(result.is_ok());

    let bytes = encoder.finish();
    // 0x00 for absent
    assert_eq!(bytes, vec![0x00]);
}

#[test]
fn test_encode_optional_present() {
    let ir = resolve("resource User { optional number age }");

    let mut encoder = BinaryEncoder::new();
    let field_value = FieldValue {
        name: "age".to_string(),
        value: Value::Number(30),
        is_optional: true,
        is_nullable: false,
    };

    let result = encoder.encode_field(&field_value, &ir.resources[0].fields[0], &ir);
    assert!(result.is_ok());

    let bytes = encoder.finish();
    // 0x01 for present + i64(30)
    assert_eq!(bytes.len(), 1 + 8);
    assert_eq!(bytes[0], 0x01);
}

#[test]
fn test_encode_simple_resource() {
    let schema = r#"
        resource User {
            string name
            number age
            bool active
        }
    "#;
    let ir = resolve(schema);

    let mut encoder = BinaryEncoder::new();
    let value = Value::Resource(vec![
        FieldValue {
            name: "name".to_string(),
            value: Value::String("Alice".to_string()),
            is_optional: false,
            is_nullable: false,
        },
        FieldValue {
            name: "age".to_string(),
            value: Value::Number(30),
            is_optional: false,
            is_nullable: false,
        },
        FieldValue {
            name: "active".to_string(),
            value: Value::Bool(true),
            is_optional: false,
            is_nullable: false,
        },
    ]);

    let result = encoder.encode_value(&value, &IRType::ResourceRef(0), &ir);
    assert!(result.is_ok());

    let bytes = encoder.finish();
    // u32(5) + "Alice" + i64(30) + bool(true)
    assert_eq!(&bytes[0..4], &[5, 0, 0, 0]); // length of "Alice"
    assert_eq!(&bytes[4..9], b"Alice");
    // age follows, then active
    assert!(bytes.len() > 9);
}

#[test]
fn test_encode_nested_resource() {
    let schema = r#"
        resource User { string name }
        resource Profile { User user }
    "#;
    let ir = resolve(schema);

    let mut encoder = BinaryEncoder::new();

    // Create nested User resource
    let user_value = Value::Resource(vec![FieldValue {
        name: "name".to_string(),
        value: Value::String("Bob".to_string()),
        is_optional: false,
        is_nullable: false,
    }]);

    // Create Profile with User
    let profile_value = Value::Resource(vec![FieldValue {
        name: "user".to_string(),
        value: user_value,
        is_optional: false,
        is_nullable: false,
    }]);

    let result = encoder.encode_value(&profile_value, &IRType::ResourceRef(1), &ir);
    assert!(result.is_ok());

    let bytes = encoder.finish();
    // u32(3) + "Bob"
    assert_eq!(&bytes[0..4], &[3, 0, 0, 0]); // length of "Bob"
    assert_eq!(&bytes[4..7], b"Bob");
}

#[test]
fn test_encode_type_mismatch_error() {
    let ir = resolve("resource User { string name }");

    let mut encoder = BinaryEncoder::new();
    let value = Value::Number(42); // Wrong type!
    let ir_type = IRType::Primitive("string".to_string());

    let result = encoder.encode_value(&value, &ir_type, &ir);
    assert!(result.is_err());
    assert!(result.unwrap_err().contains("Type mismatch"));
}

#[test]
fn test_encode_type_mismatch_names_value_and_type() {
    // The error carries the offending value and the expected type.
    let ir = IRProgram { resources: vec![] };
    let mut encoder = BinaryEncoder::new();
    let err = encoder
        .encode_value(
            &Value::Number(42),
            &IRType::Primitive("string".to_string()),
            &ir,
        )
        .unwrap_err();
    assert_eq!(err, "Type mismatch: value number 42 does not match type string");

    let mut encoder = BinaryEncoder::new();
    let err = encoder
        .encode_value(
            &Value::String("hi".to_string()),
            &IRType::List(Box::new(IRType::Primitive("number".to_string()))),
            &ir,
        )
        .unwrap_err();
    assert_eq!(err, "Type mismatch: value string \"hi\" does not match type list number");

    let mut encoder = BinaryEncoder::new();
    let err = encoder
        .encode_value(&Value::Number(-7), &IRType::ResourceRef(0), &ir)
        .unwrap_err();
    assert_eq!(err, "Type mismatch: value number -7 does not match type resource 0");
}

#[test]
fn test_encode_error_leaves_buffer_untouched() {
    // An immediate failure appends nothing: earlier bytes stay as they are.
    let ir = resolve("resource User { string name number age }");
    let mut encoder = BinaryEncoder::new();
    encoder.encode_bool(true);
    let value = Value::Resource(vec![FieldValue {
        name: "name".to_string(),
        value: Value::String("Alice".to_string()),
        is_optional: false,
        is_nullable: false,
    }]);
    assert!(encoder.encode_value(&value, &IRType::ResourceRef(0), &ir).is_err());
    assert!(encoder
        .encode_value(&Value::Null, &IRType::Primitive("bool".to_string()), &ir)
        .is_err());
    assert_eq!(encoder.finish(), vec![0x01]);
}

#[test]
fn test_encode_resource_field_count_mismatch() {
    let schema = r#"
        resource User {
            string name
            number age
        }
    "#;
    let ir = resolve(schema);

    let mut encoder = BinaryEncoder::new();
    // Only provide 1 field when 2 are expected
    let value = Value::Resource(vec![FieldValue {
        name: "name".to_string(),
        value: Value::String("Alice".to_string()),
        is_optional: false,
        is_nullable: false,
    }]);

    let result = encoder.encode_value(&value, &IRType::ResourceRef(0), &ir);
    assert!(result.is_err());
    assert!(result.unwrap_err().contains("Field count mismatch"));
}

#[test]
fn test_encode_exact_hi_bytes() {
    // "hi" against a string type yields [2, 0, 0, 0, 'h', 'i'].
    let ir = IRProgram { resources: vec![] };
    let mut encoder = BinaryEncoder::new();
    let result = encoder.encode_value(
        &Value::String("hi".to_string()),
        &IRType::Primitive("string".to_string()),
        &ir,
    );
    assert!(result.is_ok());
    assert_eq!(encoder.finish(), vec![2, 0, 0, 0, b'h', b'i']);
}

#[test]
fn test_encode_negative_number() {
    let mut encoder = BinaryEncoder::new();
    encoder.encode_number(-1);
    assert_eq!(encoder.finish(), vec![0xff; 8]);
}

#[test]
fn test_encode_number_boundaries() {
    let mut encoder = BinaryEncoder::new();
    encoder.encode_number(i64::MAX);
    assert_eq!(
        encoder.finish(),
        vec![0xff, 0xff, 0xff, 0xff, 0xff, 0xff, 0xff, 0x7f]
    );
    let mut encoder = BinaryEncoder::new();
    encoder.encode_number(i64::MIN);
    assert_eq!(encoder.finish(), vec![0, 0, 0, 0, 0, 0, 0, 0x80]);
}

#[test]
fn test_encode_utf8_string_length_counts_bytes() {
    // The length prefix counts UTF-8 bytes, not characters.
    let mut encoder = BinaryEncoder::new();
    encoder.encode_string("é");
    let bytes = encoder.finish();
    assert_eq!(bytes[0], 2);
    assert_eq!(bytes.len(), 6);
}

#[test]
fn test_encode_null_without_wrapper_fails() {
    let ir = IRProgram { resources: vec![] };
    let mut encoder = BinaryEncoder::new();
    let result = encoder.encode_value(
        &Value::Null,
        &IRType::Primitive("bool".to_string()),
        &ir,
    );
    assert!(result.is_err());
    assert!(result.unwrap_err().contains("null"));
}

#[test]
fn test_encode_absent_without_wrapper_fails() {
    let ir = IRProgram { resources: vec![] };
    let mut encoder = BinaryEncoder::new();
    let result = encoder.encode_value(
        &Value::Absent,
        &IRType::Primitive("bool".to_string()),
        &ir,
    );
    assert!(result.is_err());
    assert!(result.unwrap_err().contains("absent"));
}

#[test]
fn test_encode_optional_nullable_null_wrappers() {
    // Optional is checked first (present), nullable second (null):
    // exactly [0x01, 0x00].
    let ir = resolve("resource User { optional nullable number age }");
    let mut encoder = BinaryEncoder::new();
    let field_value = FieldValue {
        name: "age".to_string(),
        value: Value::Null,
        is_optional: true,
        is_nullable: true,
    };
    let result = encoder.encode_field(&field_value, &ir.resources[0].fields[0], &ir);
    assert!(result.is_ok());
    assert_eq!(encoder.finish(), vec![0x01, 0x00]);
}

#[test]
fn test_encode_field_count_mismatch_names_counts() {
    let ir = resolve("resource User { string name number age }");
    let mut encoder = BinaryEncoder::new();
    let value = Value::Resource(vec![FieldValue {
        name: "name".to_string(),
        value: Value::String("Alice".to_string()),
        is_optional: false,
        is_nullable: false,
    }]);
    let err = encoder.encode_value(&value, &IRType::ResourceRef(0), &ir).unwrap_err();
    assert!(err.contains("expected 2"));
    assert!(err.contains("got 1"));
    assert!(err.contains("User"));
}

#[test]
fn test_encode_invalid_resource_index_fails() {
    let ir = IRProgram { resources: vec![] };
    let mut encoder = BinaryEncoder::new();
    let result = encoder.encode_value(&Value::Resource(vec![]), &IRType::ResourceRef(7), &ir);
    assert!(result.is_err());
    assert!(result.unwrap_err().contains("Invalid resource index: 7"));
}
