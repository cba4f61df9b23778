//! Cycle detection: self-references, two-way and longer cycles, lists in
//! cycles, and the error text.
use previous::{compile_schema, parse_schema, CycleDetector, TypeResolver};

fn build_detector(schema: &str) -> CycleDetector {
    let program = parse_schema(schema).unwrap();
    let resolver = TypeResolver::new(&program).unwrap();
    let ir = resolver.resolve(&program).unwrap();
    CycleDetector::build(&ir).unwrap()
}

#[test]
fn test_cycle_detector_no_cycles() {
    let schema = r#"
        resource User {
            string name
            string email
        }
        resource Post {
            string title
            User author
        }
    "#;
    let detector = build_detector(schema);
    let result = detector.detect();

    assert!(result.is_ok());
}

#[test]
fn test_cycle_detector_self_reference() {
    let schema = r#"
            resource A {
                list A children
            }
        "#;
    let detector = build_detector(schema);
    let result = detector.detect();

    assert!(result.is_err());
    let err = result.unwrap_err();
    assert!(err.contains("Cyclic dependency detected"));
    assert!(err.contains("A"));
}

#[test]
fn test_cycle_detector_simple_cycle() {
    let schema = r#"
            resource A { B b }
            resource B { A a }
        "#;
    let detector = build_detector(schema);
    let result = detector.detect();

    assert!(result.is_err());
    let err = result.unwrap_err();
    assert!(err.contains("Cyclic dependency detected"));
    assert!(err.contains("A"));
    assert!(err.contains("B"));
}

#[test]
fn test_cycle_detector_three_way_cycle() {
    let schema = r#"
        resource A { B b }
        resource B { C c }
        resource C { A a }
    "#;
    let detector = build_detector(schema);
    let result = detector.detect();

    assert!(result.is_err());
    let err = result.unwrap_err();
    assert!(err.contains("Cyclic dependency detected"));
}

#[test]
fn test_cycle_detector_cycle_with_other_resources() {
    let schema = r#"
        resource A { B b }
        resource B { A a }
        resource C { string data }
        resource D { C ref }
    "#;
    let detector = build_detector(schema);
    let result = detector.detect();

    // Should detect the A ↔ B cycle
    assert!(result.is_err());
    let err = result.unwrap_err();
    assert!(err.contains("Cyclic dependency detected"));
}

#[test]
fn test_cycle_detector_list_in_cycle() {
    let schema = r#"
        resource A { list B items }
        resource B { A parent }
    "#;
    let detector = build_detector(schema);
    let result = detector.detect();

    assert!(result.is_err());
    let err = result.unwrap_err();
    assert!(err.contains("Cyclic dependency detected"));
}

#[test]
fn test_cycle_detector_nested_list_no_cycle() {
    let schema = r#"
        resource Item { string name }
        resource Collection { list list Item items }
    "#;
    let detector = build_detector(schema);
    let result = detector.detect();

    // Nested lists should not create cycles
    assert!(result.is_ok());
}

#[test]
fn test_compile_schema_with_cycle_error() {
    let schema = r#"
            resource X { Y y }
            resource Y { X x }
        "#;
    let result = compile_schema(schema);

    assert!(result.is_err());
    let err = result.unwrap_err();
    assert!(err.contains("Cyclic dependency detected"));
}

#[test]
fn test_compile_schema_without_cycle_success() {
    let schema = r#"
        resource User { string name }
        resource Post { User author }
        resource Blog { list Post posts }
    "#;
    let result = compile_schema(schema);

    assert!(result.is_ok());
}

#[test]
fn test_cycle_error_message_format() {
    let schema = r#"
        resource A { B b }
        resource B { C c }
        resource C { A a }
    "#;
    let detector = build_detector(schema);
    let result = detector.detect();

    assert!(result.is_err());
    let err = result.unwrap_err();
    // Should show the cycle path with arrows
    assert!(err.contains(" → "));
}

#[test]
fn test_cycle_detector_multiple_fields_with_cycle() {
    let schema = r#"
        resource A {
            string name
            B ref1
            B ref2
        }
        resource B {
            string title
            A parent
        }
    "#;
    let detector = build_detector(schema);
    let result = detector.detect();

    assert!(result.is_err());
}

#[test]
fn test_cycle_self_reference_chain_names_repeat() {
    // A length-1 cycle reads as the name closing on itself.
    let schema = "resource A { list A children }";
    let detector = build_detector(schema);
    let err = detector.detect().unwrap_err();
    assert!(err.contains("A → A"));
}

#[test]
fn test_two_way_cycle_chain_closes() {
    let schema = r#"
        resource A { B b }
        resource B { A a }
    "#;
    let detector = build_detector(schema);
    let err = detector.detect().unwrap_err();
    assert!(err.contains("A → B → A"));
}

#[test]
fn test_acyclic_diamond_is_accepted() {
    // Two routes to the same resource are shared structure, not a cycle.
    let schema = r#"
        resource Root { Left l Right r }
        resource Left { Leaf leaf }
        resource Right { Leaf leaf }
        resource Leaf { string name }
    "#;
    let detector = build_detector(schema);
    assert!(detector.detect().is_ok());
}
