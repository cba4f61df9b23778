//! IR structure and the type resolver: primitives, named references,
//! nested lists, attribute preservation, undefined names.
use previous::{
    parse_schema, DefaultValue, IRField, IRProgram, IRResource, IRType, Literal, TypeResolver,
};

#[test]
fn test_ir_type_primitive() {
    let ir_type = IRType::Primitive("string".to_string());
    match ir_type {
        IRType::Primitive(s) => assert_eq!(s, "string"),
        _ => panic!("Expected primitive"),
    }
}

#[test]
fn test_ir_type_resource_ref() {
    let ir_type = IRType::ResourceRef(0);
    match ir_type {
        IRType::ResourceRef(idx) => assert_eq!(idx, 0),
        _ => panic!("Expected resource ref"),
    }
}

#[test]
fn test_ir_type_list() {
    let ir_type = IRType::List(Box::new(IRType::Primitive("string".to_string())));
    match ir_type {
        IRType::List(inner) => match *inner {
            IRType::Primitive(ref s) => assert_eq!(s, "string"),
            _ => panic!("Expected primitive inner type"),
        },
        _ => panic!("Expected list"),
    }
}

#[test]
fn test_ir_type_equality() {
    let t1 = IRType::Primitive("string".to_string());
    let t2 = IRType::Primitive("string".to_string());
    assert_eq!(t1, t2);
}

#[test]
fn test_ir_program_get_resource_index() {
    let ir = IRProgram {
        resources: vec![
            IRResource {
                name: "User".to_string(),
                fields: vec![],
            },
            IRResource {
                name: "Post".to_string(),
                fields: vec![],
            },
        ],
    };

    assert_eq!(ir.get_resource_index("User"), Some(0));
    assert_eq!(ir.get_resource_index("Post"), Some(1));
    assert_eq!(ir.get_resource_index("Unknown"), None);
}

#[test]
fn test_ir_program_get_resource() {
    let ir = IRProgram {
        resources: vec![IRResource {
            name: "User".to_string(),
            fields: vec![],
        }],
    };

    assert!(ir.get_resource("User").is_some());
    assert!(ir.get_resource("Unknown").is_none());
}

#[test]
fn test_ir_field_with_attributes() {
    let field = IRField {
        name: "age".to_string(),
        field_type: IRType::Primitive("number".to_string()),
        nullable: false,
        optional: true,
        default: None,
        index: 0,
    };

    assert_eq!(field.name, "age");
    assert!(field.optional);
    assert!(!field.nullable);
}

#[test]
fn test_ir_field_with_default() {
    let field = IRField {
        name: "timeout".to_string(),
        field_type: IRType::Primitive("number".to_string()),
        nullable: false,
        optional: false,
        default: Some(DefaultValue {
            value: Literal::Number(10),
        }),
        index: 0,
    };

    assert!(field.default.is_some());
}

#[test]
fn test_type_resolver_new() {
    let schema = r#"
        resource User { string name }
        resource Post { string title }
    "#;
    let program = parse_schema(schema).unwrap();
    let resolver = TypeResolver::new(&program);

    assert!(resolver.is_ok());
    let resolver = resolver.unwrap();
    // Verify both resources are in the map
    assert!(resolver.lookup("User").is_some());
    assert!(resolver.lookup("Post").is_some());
}

#[test]
fn test_resolve_primitive_types() {
    let schema = r#"
        resource Config {
            string name
            number timeout
            bool enabled
        }
    "#;
    let program = parse_schema(schema).unwrap();
    let resolver = TypeResolver::new(&program).unwrap();
    let ir = resolver.resolve(&program).unwrap();

    assert_eq!(ir.resources.len(), 1);
    assert_eq!(ir.resources[0].fields.len(), 3);

    // Verify types are preserved
    match &ir.resources[0].fields[0].field_type {
        IRType::Primitive(s) => assert_eq!(s, "string"),
        _ => panic!("Expected primitive string"),
    }
    match &ir.resources[0].fields[1].field_type {
        IRType::Primitive(s) => assert_eq!(s, "number"),
        _ => panic!("Expected primitive number"),
    }
    match &ir.resources[0].fields[2].field_type {
        IRType::Primitive(s) => assert_eq!(s, "bool"),
        _ => panic!("Expected primitive bool"),
    }
}

#[test]
fn test_resolve_named_type() {
    let schema = r#"
        resource User { string name }
        resource Profile { User user }
    "#;
    let program = parse_schema(schema).unwrap();
    let resolver = TypeResolver::new(&program).unwrap();
    let ir = resolver.resolve(&program).unwrap();

    // Profile references User
    assert_eq!(ir.resources.len(), 2);
    assert_eq!(ir.resources[0].name, "User");
    assert_eq!(ir.resources[1].name, "Profile");

    // Check that the reference is resolved to index 0
    match &ir.resources[1].fields[0].field_type {
        IRType::ResourceRef(idx) => assert_eq!(*idx, 0),
        _ => panic!("Expected ResourceRef"),
    }
}

#[test]
fn test_resolve_list_of_primitives() {
    let schema = r#"
        resource Names {
            list string names
        }
    "#;
    let program = parse_schema(schema).unwrap();
    let resolver = TypeResolver::new(&program).unwrap();
    let ir = resolver.resolve(&program).unwrap();

    match &ir.resources[0].fields[0].field_type {
        IRType::List(inner) => match **inner {
            IRType::Primitive(ref s) => assert_eq!(s, "string"),
            _ => panic!("Expected primitive inner type"),
        },
        _ => panic!("Expected list type"),
    }
}

#[test]
fn test_resolve_list_of_named_type() {
    let schema = r#"
        resource User { string name }
        resource Users { list User users }
    "#;
    let program = parse_schema(schema).unwrap();
    let resolver = TypeResolver::new(&program).unwrap();
    let ir = resolver.resolve(&program).unwrap();

    // Check Users.users field
    match &ir.resources[1].fields[0].field_type {
        IRType::List(inner) => match **inner {
            IRType::ResourceRef(idx) => assert_eq!(idx, 0),
            _ => panic!("Expected ResourceRef inner type"),
        },
        _ => panic!("Expected list type"),
    }
}

#[test]
fn test_resolve_nested_lists() {
    let schema = r#"
        resource Matrix {
            list list number values
        }
    "#;
    let program = parse_schema(schema).unwrap();
    let resolver = TypeResolver::new(&program).unwrap();
    let ir = resolver.resolve(&program).unwrap();

    // Verify nested list structure: List(List(Primitive))
    match &ir.resources[0].fields[0].field_type {
        IRType::List(outer) => match **outer {
            IRType::List(ref inner) => match **inner {
                IRType::Primitive(ref s) => assert_eq!(s, "number"),
                _ => panic!("Expected primitive inner type"),
            },
            _ => panic!("Expected inner list"),
        },
        _ => panic!("Expected outer list"),
    }
}

#[test]
fn test_resolve_preserves_field_attributes() {
    let schema = r#"
        resource Config {
            optional number age
            nullable bool enabled
            default(10) number timeout
        }
    "#;
    let program = parse_schema(schema).unwrap();
    let resolver = TypeResolver::new(&program).unwrap();
    let ir = resolver.resolve(&program).unwrap();

    // Check first field (optional)
    assert!(ir.resources[0].fields[0].optional);
    assert!(!ir.resources[0].fields[0].nullable);

    // Check second field (nullable)
    assert!(ir.resources[0].fields[1].nullable);
    assert!(!ir.resources[0].fields[1].optional);

    // Check third field (default)
    assert!(ir.resources[0].fields[2].default.is_some());
}

#[test]
fn test_resolve_undefined_type_error() {
    let schema = r#"
        resource User {
            Unknown unknownField
        }
    "#;
    let program = parse_schema(schema).unwrap();
    let resolver = TypeResolver::new(&program).unwrap();
    let result = resolver.resolve(&program);

    assert!(result.is_err());
    assert!(result.unwrap_err().contains("Undefined type"));
}

#[test]
fn test_resolve_multiple_resources() {
    let schema = r#"
        resource User {
            string name
            string email
        }
        resource Post {
            string title
            User author
        }
        resource Blog {
            list Post posts
            User owner
        }
    "#;
    let program = parse_schema(schema).unwrap();
    let resolver = TypeResolver::new(&program).unwrap();
    let ir = resolver.resolve(&program).unwrap();

    // Verify all resources are resolved
    assert_eq!(ir.resources.len(), 3);
    assert_eq!(ir.resources[0].name, "User");
    assert_eq!(ir.resources[1].name, "Post");
    assert_eq!(ir.resources[2].name, "Blog");

    // Verify references
    // Post.author should reference User (index 0)
    match &ir.resources[1].fields[1].field_type {
        IRType::ResourceRef(idx) => assert_eq!(*idx, 0),
        _ => panic!("Expected ResourceRef"),
    }

    // Blog.posts should be List(ResourceRef(1))
    match &ir.resources[2].fields[0].field_type {
        IRType::List(inner) => match **inner {
            IRType::ResourceRef(idx) => assert_eq!(idx, 1),
            _ => panic!("Expected ResourceRef"),
        },
        _ => panic!("Expected list"),
    }

    // Blog.owner should reference User (index 0)
    match &ir.resources[2].fields[1].field_type {
        IRType::ResourceRef(idx) => assert_eq!(*idx, 0),
        _ => panic!("Expected ResourceRef"),
    }
}

#[test]
fn test_full_compilation_with_type_resolution() {
    let schema = r#"
        resource User { string name }
        resource Post { User author }
    "#;
    let result = previous::compile_schema(schema);

    assert!(result.is_ok());
    let output = result.unwrap();
    assert_eq!(output.ir.resources.len(), 2);

    // Verify Post.author is resolved
    match &output.ir.resources[1].fields[0].field_type {
        IRType::ResourceRef(idx) => assert_eq!(*idx, 0),
        _ => panic!("Expected resolved type"),
    }
}

#[test]
fn test_resolve_forward_reference() {
    // Declaration order is irrelevant: the reference comes before the
    // declaration in the text.
    let schema = r#"
        resource Profile { User user }
        resource User { string name }
    "#;
    let program = parse_schema(schema).unwrap();
    let resolver = TypeResolver::new(&program).unwrap();
    let ir = resolver.resolve(&program).unwrap();
    match &ir.resources[0].fields[0].field_type {
        IRType::ResourceRef(idx) => assert_eq!(*idx, 1),
        _ => panic!("Expected ResourceRef"),
    }
}

#[test]
fn test_resolver_new_rejects_duplicates() {
    let schema = r#"
        resource A { string x }
        resource A { string y }
    "#;
    let program = parse_schema(schema).unwrap();
    let result = TypeResolver::new(&program);
    assert!(result.is_err());
    assert!(result.unwrap_err().contains("Duplicate resource name"));
}
