use firm_ql::error::QueryError;
use firm_ql::result::{QueryResultSet, QueryRow};
use firm_ql::value::FieldValue;

fn people() -> QueryResultSet {
    let mut set = QueryResultSet::new(vec!["name".to_string(), "age".to_string()]);
    let rows = vec![("Carol", 30), ("Alice", 25), ("Bob", 30), ("Dave", 25)];
    for (name, age) in rows {
        set.add_row(QueryRow::new(vec![FieldValue::String(name.to_string()), FieldValue::Integer(age)]))
            .unwrap();
    }
    set
}

fn names_of(set: &QueryResultSet) -> Vec<String> {
    set.rows
        .iter()
        .map(|r| match &r.values[0] {
            FieldValue::String(s) => s.clone(),
            _ => panic!("name column holds a string"),
        })
        .collect()
}

#[test]
fn test_column_values_in_row_order() {
    let set = people();
    let ages = set.column_values("age").unwrap();
    assert_eq!(ages.len(), 4);
    assert_eq!(*ages[0], FieldValue::Integer(30));
    assert_eq!(*ages[3], FieldValue::Integer(25));
    let missing = set.column_values("height").unwrap_err();
    assert_eq!(missing.to_message(), "Column 'height' not found in result set");
}

#[test]
fn test_row_get_and_get_by_name() {
    let set = people();
    let row = &set.rows[1];
    assert_eq!(*row.get(0).unwrap(), FieldValue::String("Alice".to_string()));
    assert_eq!(row.get(2).unwrap_err().to_message(), "Execution error: Column index 2 out of bounds");
    assert_eq!(*row.get_by_name(&set, "age").unwrap(), FieldValue::Integer(25));
    assert!(row.get_by_name(&set, "height").is_err());
}

#[test]
fn test_add_row_width_mismatch() {
    let mut set = people();
    let err = set.add_row(QueryRow::new(vec![FieldValue::Integer(1)])).unwrap_err();
    assert_eq!(err.to_message(), "Execution error: Row has 1 values but expected 2 columns");
    assert_eq!(set.len(), 4);
}

#[test]
fn test_sort_by_column_is_stable() {
    let mut set = people();
    set.sort_by_column("age", true).unwrap();
    assert_eq!(names_of(&set), vec!["Alice", "Dave", "Carol", "Bob"]);
    set.sort_by_column("age", false).unwrap();
    assert_eq!(names_of(&set), vec!["Carol", "Bob", "Alice", "Dave"]);
    assert!(set.sort_by_column("height", true).is_err());
}

#[test]
fn test_sort_by_columns_with_two_keys() {
    let mut set = people();
    set.sort_by_columns(&[("age".to_string(), false), ("name".to_string(), true)]).unwrap();
    assert_eq!(names_of(&set), vec!["Bob", "Carol", "Alice", "Dave"]);
    let mut unchanged = people();
    unchanged.sort_by_columns(&[]).unwrap();
    assert_eq!(names_of(&unchanged), vec!["Carol", "Alice", "Bob", "Dave"]);
    let err = unchanged.sort_by_columns(&[("nope".to_string(), true)]).unwrap_err();
    assert_eq!(err.to_message(), "Column 'nope' not found in result set");
}

#[test]
fn test_filter_and_limit_past_end() {
    let set = people();
    let thirty = set.filter(|r| r.values[1] == FieldValue::Integer(30));
    assert_eq!(names_of(&thirty), vec!["Carol", "Bob"]);
    assert_eq!(thirty.columns, set.columns);
    let tail = set.limit(10, Some(3));
    assert_eq!(names_of(&tail), vec!["Dave"]);
    let none = set.limit(2, Some(9));
    assert!(none.is_empty());
}

#[test]
fn test_to_maps_by_column_name() {
    let set = people();
    let maps = set.to_maps();
    assert_eq!(maps.len(), 4);
    assert_eq!(*maps[2].get("name").unwrap(), FieldValue::String("Bob".to_string()));
    assert_eq!(*maps[2].get("age").unwrap(), FieldValue::Integer(30));
    assert!(maps[2].get("height").is_none());
}

#[test]
fn test_error_messages_of_each_kind() {
    assert_eq!(QueryError::syntax("bad", 3).to_message(), "Syntax error: bad at position 3");
    assert_eq!(QueryError::unknown_entity_type("ghost").to_message(), "Unknown entity type: ghost");
    assert_eq!(
        QueryError::unknown_field("email", "person").to_message(),
        "Unknown field 'email' on entity type 'person'"
    );
    assert_eq!(
        QueryError::type_mismatch("Integer", "String").to_message(),
        "Type mismatch: cannot compare Integer with String"
    );
    assert_eq!(QueryError::execution("boom").to_message(), "Execution error: boom");
    assert_eq!(QueryError::invalid_literal("12x").to_message(), "Invalid literal: 12x");
    assert_eq!(
        QueryError::unresolved_reference("person.nobody").to_message(),
        "Cannot resolve reference: person.nobody"
    );
    assert_eq!(
        QueryError::unsupported_operation("MERGE").to_message(),
        "Unsupported operation: MERGE"
    );
    assert_eq!(QueryError::invalid_syntax("near FROM").to_message(), "Invalid SQL syntax: near FROM");
    assert_eq!(QueryError::column_not_found("x").to_message(), "Column 'x' not found in result set");
}

#[test]
fn test_filter_keeps_metadata() {
    let mut set = people();
    set.metadata.entities_scanned = Some(4);
    set.metadata.execution_time_ms = Some(7);
    set.metadata.execution_plan = Some("scan person".to_string());
    let kept = set.filter(|r| r.values[1] == FieldValue::Integer(25));
    assert_eq!(kept.len(), 2);
    assert_eq!(kept.metadata.entities_scanned, Some(4));
    assert_eq!(kept.metadata.execution_time_ms, Some(7));
    assert_eq!(kept.metadata.execution_plan, Some("scan person".to_string()));
    assert!(!kept.metadata.truncated);
}

#[test]
fn test_limit_keeps_metadata_unless_past_the_end() {
    let mut set = people();
    set.metadata.entities_scanned = Some(4);
    set.metadata.truncated = true;
    let window = set.limit(2, Some(1));
    assert_eq!(names_of(&window), vec!["Alice", "Bob"]);
    assert_eq!(window.metadata.entities_scanned, Some(4));
    assert!(window.metadata.truncated);
    let past = set.limit(2, Some(4));
    assert!(past.is_empty());
    assert_eq!(past.metadata.entities_scanned, None);
    assert!(!past.metadata.truncated);
}
