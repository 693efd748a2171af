use validated_json::flatten::flatten;
use validated_json::report::{Report, ReportValue};
use validated_json::tree::ErrorTree;

fn leaf(msgs: &[&str]) -> ErrorTree {
    ErrorTree::Wrapped { errors: msgs.iter().map(|m| m.to_string()).collect() }
}

fn messages(msgs: &[&str]) -> ReportValue {
    ReportValue::Messages(msgs.iter().map(|m| m.to_string()).collect())
}

#[test]
fn test_field_level_error() {
    let tree = ErrorTree::Keyed {
        own_errors: vec![],
        fields: vec![(
            "name".to_string(),
            leaf(&["The length of the value must be `>= 3`."]),
        )],
    };
    let report = flatten(&tree);
    let mut expected = Report::new();
    expected.insert(
        "name".to_string(),
        messages(&["The length of the value must be `>= 3`."]),
    );
    assert_eq!(report, expected);
}

#[test]
fn test_nested_field_level_error() {
    let inner = ErrorTree::Keyed {
        own_errors: vec![],
        fields: vec![(
            "name".to_string(),
            leaf(&["The length of the value must be `>= 3`."]),
        )],
    };
    let tree = ErrorTree::Keyed {
        own_errors: vec![],
        fields: vec![("inner".to_string(), inner)],
    };
    let report = flatten(&tree);
    let mut inner_expected = Report::new();
    inner_expected.insert(
        "name".to_string(),
        messages(&["The length of the value must be `>= 3`."]),
    );
    let mut expected = Report::new();
    expected.insert("inner".to_string(), ReportValue::Nested(inner_expected));
    assert_eq!(report, expected);
}

#[test]
fn test_top_level_error() {
    let tree = ErrorTree::Keyed {
        own_errors: vec!["Overall data is invalid!".to_string()],
        fields: vec![],
    };
    let report = flatten(&tree);
    let mut expected = Report::new();
    expected.insert(
        "non_field_errors".to_string(),
        messages(&["Overall data is invalid!"]),
    );
    assert_eq!(report, expected);
}

#[test]
fn test_array_error() {
    let tree = ErrorTree::Keyed {
        own_errors: vec![],
        fields: vec![(
            "items".to_string(),
            ErrorTree::Sequence {
                own_errors: vec!["The length of the items must be `>= 2`.".to_string()],
                items: vec![],
            },
        )],
    };
    let report = flatten(&tree);
    let mut expected = Report::new();
    expected.insert(
        "items".to_string(),
        messages(&["The length of the items must be `>= 2`."]),
    );
    assert_eq!(report, expected);
}

#[test]
fn test_multiple_nested_errors() {
    let length_msg = "The length of the value must be `>= 3`.";
    let number_msg = "The number must be `>= 10`.";
    let make_inner = || ErrorTree::Keyed {
        own_errors: vec![],
        fields: vec![
            ("name".to_string(), leaf(&[length_msg])),
            ("age".to_string(), leaf(&[number_msg])),
        ],
    };
    let tree = ErrorTree::Keyed {
        own_errors: vec![],
        fields: vec![
            ("inner1".to_string(), make_inner()),
            ("inner2".to_string(), make_inner()),
        ],
    };
    let report = flatten(&tree);
    let make_inner_expected = || {
        let mut inner = Report::new();
        inner.insert("name".to_string(), messages(&[length_msg]));
        inner.insert("age".to_string(), messages(&[number_msg]));
        inner
    };
    let mut expected = Report::new();
    expected.insert("inner1".to_string(), ReportValue::Nested(make_inner_expected()));
    expected.insert("inner2".to_string(), ReportValue::Nested(make_inner_expected()));
    assert_eq!(report, expected);
}

#[test]
fn test_newtype_validation_error() {
    let tree = leaf(&["The number must be `>= 10`."]);
    let report = flatten(&tree);
    let mut expected = Report::new();
    expected.insert(
        "non_field_errors".to_string(),
        messages(&["The number must be `>= 10`."]),
    );
    assert_eq!(report, expected);
}

#[test]
fn test_empty_node_gives_empty_report() {
    let tree = ErrorTree::Keyed { own_errors: vec![], fields: vec![] };
    let report = flatten(&tree);
    assert_eq!(report.len(), 0);
    assert_eq!(report, Report::new());
}

#[test]
fn test_sparse_sequence_indices() {
    let tree = ErrorTree::Sequence {
        own_errors: vec![],
        items: vec![
            ("0".to_string(), leaf(&["first bad"])),
            ("2".to_string(), leaf(&["third bad"])),
        ],
    };
    let report = flatten(&tree);
    let mut expected = Report::new();
    expected.insert("0".to_string(), messages(&["first bad"]));
    expected.insert("2".to_string(), messages(&["third bad"]));
    assert_eq!(report, expected);
    assert_eq!(report.len(), 2);
    assert!(report.get(&"1".to_string()).is_none());
}

#[test]
fn test_message_order_preserved() {
    let tree = ErrorTree::Wrapped {
        errors: vec!["first".to_string(), "second".to_string()],
    };
    let report = flatten(&tree);
    let value = report.get(&"non_field_errors".to_string()).unwrap();
    assert_eq!(*value, messages(&["first", "second"]));
}

#[test]
fn test_own_errors_and_children_both_emitted() {
    let tree = ErrorTree::Keyed {
        own_errors: vec!["overall bad".to_string()],
        fields: vec![("name".to_string(), leaf(&["too short"]))],
    };
    let report = flatten(&tree);
    let mut expected = Report::new();
    expected.insert("non_field_errors".to_string(), messages(&["overall bad"]));
    expected.insert("name".to_string(), messages(&["too short"]));
    assert_eq!(report, expected);
}

#[test]
fn test_child_with_own_and_nested_keeps_sentinel() {
    let inner = ErrorTree::Keyed {
        own_errors: vec!["inner bad".to_string()],
        fields: vec![("name".to_string(), leaf(&["too short"]))],
    };
    let tree = ErrorTree::Keyed {
        own_errors: vec![],
        fields: vec![("inner".to_string(), inner)],
    };
    let report = flatten(&tree);
    let mut inner_expected = Report::new();
    inner_expected.insert("non_field_errors".to_string(), messages(&["inner bad"]));
    inner_expected.insert("name".to_string(), messages(&["too short"]));
    let mut expected = Report::new();
    expected.insert("inner".to_string(), ReportValue::Nested(inner_expected));
    assert_eq!(report, expected);
}

#[test]
fn test_sequence_item_with_own_and_children_overwrites() {
    let item = ErrorTree::Keyed {
        own_errors: vec!["bad".to_string()],
        fields: vec![("f".to_string(), leaf(&["x"]))],
    };
    let tree = ErrorTree::Sequence {
        own_errors: vec![],
        items: vec![("0".to_string(), item)],
    };
    let report = flatten(&tree);
    let mut inner_expected = Report::new();
    inner_expected.insert("f".to_string(), messages(&["x"]));
    let mut expected = Report::new();
    expected.insert("0".to_string(), ReportValue::Nested(inner_expected));
    assert_eq!(report, expected);
}

#[test]
fn test_merge_extends_existing_object() {
    let deep = ErrorTree::Sequence {
        own_errors: vec![],
        items: vec![(
            "p".to_string(),
            ErrorTree::Keyed {
                own_errors: vec![],
                fields: vec![("a".to_string(), leaf(&["x"]))],
            },
        )],
    };
    let tree = ErrorTree::Sequence {
        own_errors: vec![],
        items: vec![
            ("1".to_string(), deep),
            (
                "p".to_string(),
                ErrorTree::Keyed {
                    own_errors: vec![],
                    fields: vec![("b".to_string(), leaf(&["y"]))],
                },
            ),
        ],
    };
    let report = flatten(&tree);
    let mut inner_expected = Report::new();
    inner_expected.insert("a".to_string(), messages(&["x"]));
    inner_expected.insert("b".to_string(), messages(&["y"]));
    let mut expected = Report::new();
    expected.insert("p".to_string(), ReportValue::Nested(inner_expected));
    assert_eq!(report, expected);
}
