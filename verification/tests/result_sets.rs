use firm_ql::result::{compare_field_values, QueryResultSet, QueryRow};
use firm_ql::value::{FieldValue, Order};

#[test]
fn test_result_set_creation() {
    let columns = vec!["name".to_string(), "age".to_string()];
    let result_set = QueryResultSet::new(columns.clone());

    assert_eq!(result_set.columns, columns);
    assert!(result_set.is_empty());
    assert_eq!(result_set.len(), 0);
}

#[test]
fn test_add_row() {
    let mut result_set = QueryResultSet::new(vec!["name".to_string(), "age".to_string()]);

    let row = QueryRow::new(vec![
        FieldValue::String("John".to_string()),
        FieldValue::Integer(30),
    ]);

    result_set.add_row(row).unwrap();
    assert_eq!(result_set.len(), 1);
}

#[test]
fn test_column_index() {
    let result_set = QueryResultSet::new(vec!["name".to_string(), "age".to_string()]);

    assert_eq!(result_set.column_index("name").unwrap(), 0);
    assert_eq!(result_set.column_index("age").unwrap(), 1);
    assert!(result_set.column_index("unknown").is_err());
}

#[test]
fn test_compare_field_values() {
    let str1 = FieldValue::String("apple".to_string());
    let str2 = FieldValue::String("banana".to_string());
    assert_eq!(compare_field_values(&str1, &str2), Order::Less);

    let int1 = FieldValue::Integer(10);
    let int2 = FieldValue::Integer(20);
    assert_eq!(compare_field_values(&int1, &int2), Order::Less);

    let float1 = FieldValue::Float(1.5f64.to_bits());
    let float2 = FieldValue::Float(2.5f64.to_bits());
    assert_eq!(compare_field_values(&float1, &float2), Order::Less);
}

#[test]
fn test_limit() {
    let mut result_set = QueryResultSet::new(vec!["id".to_string()]);

    for i in 0..10 {
        let row = QueryRow::new(vec![FieldValue::Integer(i)]);
        result_set.add_row(row).unwrap();
    }

    let limited = result_set.limit(5, None);
    assert_eq!(limited.len(), 5);

    let offset_limited = result_set.limit(3, Some(2));
    assert_eq!(offset_limited.len(), 3);
}

#[test]
fn test_to_maps() {
    let mut result_set = QueryResultSet::new(vec!["name".to_string(), "age".to_string()]);

    let row = QueryRow::new(vec![
        FieldValue::String("John".to_string()),
        FieldValue::Integer(30),
    ]);
    result_set.add_row(row).unwrap();

    let maps = result_set.to_maps();
    assert_eq!(maps.len(), 1);
    assert_eq!(maps[0].get("name").unwrap(), &FieldValue::String("John".to_string()));
    assert_eq!(maps[0].get("age").unwrap(), &FieldValue::Integer(30));
}
