use evo::config::constant_from_fields;
use evo::model::{normalize_type, ConstantDefinition, NumericStorage};
use evo::robot::accept_command_seq;
use evo::scan::find_field_value_span;

#[test]
fn normalized_types_ignore_spaces_and_references() {
    assert_eq!(normalize_type("Foo<'m, crate::common::Cmd>"), "Foo<common::Cmd>");
    assert_eq!(normalize_type(" & crate :: a :: B "), "a::B");
    assert_eq!(normalize_type("Vec<u8>"), normalize_type("Vec< & u8 >"));
    assert!(!normalize_type("& a  b\t&").contains(' '));
}

#[test]
fn field_spans_count_bytes_of_the_text() {
    let source = "(name: \"é\", tasks: [1])";
    let (start, end) = find_field_value_span(source, "tasks").unwrap();
    assert_eq!(&source[start..end], "[1]");
    assert_eq!(start, 20);
}

#[test]
fn constants_are_built_from_decoded_fields() {
    let fields = vec![
        ("id".to_string(), "\"pose\"".to_string()),
        ("storage".to_string(), " f64 ".to_string()),
        ("unit".to_string(), " m ".to_string()),
        ("value".to_string(), "1.5".to_string()),
    ];
    match constant_from_fields(&fields, Some("pose".to_string()), None, None, None) {
        Some(ConstantDefinition::Numeric { id, module, storage, quantity, unit, value_ron }) => {
            assert_eq!(id, "pose");
            assert_eq!(module, "");
            assert!(storage == NumericStorage::F64);
            assert_eq!(quantity, None);
            assert_eq!(unit, Some("m".to_string()));
            assert_eq!(value_ron, "1.5");
        }
        other => panic!("unexpected {other:?}"),
    }
    assert!(constant_from_fields(&fields, None, None, None, None).is_none());
    let expression = vec![
        ("expression".to_string(), "\"POSE\"".to_string()),
        ("id".to_string(), "\"p\"".to_string()),
        ("type".to_string(), "\"Pose\"".to_string()),
    ];
    match constant_from_fields(
        &expression,
        Some("p".to_string()),
        Some("geo".to_string()),
        Some("Pose".to_string()),
        Some("POSE".to_string()),
    ) {
        Some(ConstantDefinition::Expression { id, module, rust_type, expression }) => {
            assert_eq!((id.as_str(), module.as_str(), rust_type.as_str(), expression.as_str()), ("p", "geo", "Pose", "POSE"));
        }
        other => panic!("unexpected {other:?}"),
    }
    assert!(constant_from_fields(&expression, Some("p".to_string()), None, None, Some("POSE".to_string())).is_none());
}

#[test]
fn commands_out_of_order_are_refused() {
    let mut last = 0u64;
    assert_eq!(accept_command_seq(&mut last, 3), Ok(()));
    assert_eq!(last, 3);
    assert!(accept_command_seq(&mut last, 3).is_err());
    assert!(accept_command_seq(&mut last, 2).is_err());
    assert_eq!(last, 3);
    assert_eq!(accept_command_seq(&mut last, 4), Ok(()));
    assert_eq!(last, 4);
}

