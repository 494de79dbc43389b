use intl_message::variables::{MessageVariableType, MessageVariables};

#[test]
fn add_instance_records_every_use() {
    let mut vars = MessageVariables::new();
    assert_eq!(vars.count(), 0);
    vars.add_instance("a", MessageVariableType::Any, None);
    vars.add_instance("b", MessageVariableType::Number, Some(3));
    vars.add_instance("a", MessageVariableType::Plural, Some(9));
    assert_eq!(vars.count(), 2);
    let a = vars.get("a").expect("a");
    assert_eq!(a.len(), 2);
    assert!(matches!(a[0].kind, MessageVariableType::Any));
    assert_eq!(a[0].span, None);
    assert!(matches!(a[1].kind, MessageVariableType::Plural));
    assert_eq!(a[1].span, Some(9));
    assert!(vars.get("c").is_none());
    assert_eq!(vars.get_keys(), vec!["a".to_string(), "b".to_string()]);
}

#[test]
fn merge_appends_and_creates_entries() {
    let mut left = MessageVariables::new();
    left.add_instance("x", MessageVariableType::Date, None);
    let mut right = MessageVariables::new();
    right.add_instance("y", MessageVariableType::Time, None);
    right.add_instance(
        "x",
        MessageVariableType::Enum(vec!["one".to_string(), "other".to_string()]),
        Some(1),
    );
    left.merge(&right);
    assert_eq!(left.count(), 2);
    assert_eq!(left.get_keys(), vec!["x".to_string(), "y".to_string()]);
    let x = left.get("x").expect("x");
    assert_eq!(x.len(), 2);
    assert!(matches!(x[0].kind, MessageVariableType::Date));
    match &x[1].kind {
        MessageVariableType::Enum(values) => assert_eq!(values, &vec!["one".to_string(), "other".to_string()]),
        _ => panic!("expected an enum"),
    }
    assert_eq!(left.get("y").expect("y").len(), 1);
    assert_eq!(right.count(), 2);
}

#[test]
fn merge_with_empty_changes_nothing() {
    let mut vars = MessageVariables::new();
    vars.add_instance("a", MessageVariableType::Any, None);
    vars.merge(&MessageVariables::new());
    assert_eq!(vars.count(), 1);
    assert_eq!(vars.get("a").expect("a").len(), 1);
}
