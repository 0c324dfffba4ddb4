use firm_ql::graph::{Entity, EntityGraph};
use firm_ql::mcp::{
    failure_reply, field_value_to_json, query_reply, resource_of, result_set_to_json_value, JsonValue, Reply, Resource,
};
use firm_ql::FirmQl;
use firm_ql::result::{QueryResultSet, QueryRow};
use firm_ql::error::QueryError;
use firm_ql::value::{FieldValue, ReferenceValue};

#[test]
fn test_field_value_to_json_conversion() {
    let text_value = FieldValue::String("hello".to_string());
    let json_result = field_value_to_json(&text_value).unwrap();
    assert_eq!(json_result, JsonValue::Text("hello".to_string()));

    let number_value = FieldValue::Integer(42);
    let json_result = field_value_to_json(&number_value).unwrap();
    assert_eq!(json_result, JsonValue::Int(42));

    let float_value = FieldValue::Float(42.5f64.to_bits());
    let json_result = field_value_to_json(&float_value).unwrap();
    assert_eq!(json_result, JsonValue::Float(42.5f64.to_bits()));

    let bool_value = FieldValue::Boolean(true);
    let json_result = field_value_to_json(&bool_value).unwrap();
    assert_eq!(json_result, JsonValue::Bool(true));
}

#[test]
fn json_of_compound_values() {
    let currency = FieldValue::Currency { amount: "250000".to_string(), currency: "USD".to_string() };
    assert_eq!(
        field_value_to_json(&currency).unwrap(),
        JsonValue::Object(vec![
            ("amount".to_string(), JsonValue::Text("250000".to_string())),
            ("currency".to_string(), JsonValue::Text("USD".to_string())),
        ])
    );
    let reference = FieldValue::Reference(ReferenceValue::Field("person.john".to_string(), "email".to_string()));
    assert_eq!(field_value_to_json(&reference).unwrap(), JsonValue::Text("person.john.email".to_string()));
    let list = FieldValue::List(vec![FieldValue::Integer(1), FieldValue::String("a".to_string())]);
    assert_eq!(
        field_value_to_json(&list).unwrap(),
        JsonValue::Array(vec![JsonValue::Int(1), JsonValue::Text("a".to_string())])
    );
}

#[test]
fn json_refuses_doubles_that_are_not_finite() {
    let nan = FieldValue::Float(f64::NAN.to_bits());
    assert_eq!(field_value_to_json(&nan).unwrap_err(), "Invalid float number: NaN");
    let inf = FieldValue::Float(f64::INFINITY.to_bits());
    assert_eq!(field_value_to_json(&inf).unwrap_err(), "Invalid float number: inf");
    let neg = FieldValue::Float(f64::NEG_INFINITY.to_bits());
    assert_eq!(field_value_to_json(&neg).unwrap_err(), "Invalid float number: -inf");
    let list = FieldValue::List(vec![FieldValue::Integer(1), FieldValue::Float(f64::NAN.to_bits())]);
    assert_eq!(field_value_to_json(&list).unwrap_err(), "Invalid float number: NaN");
}

#[test]
fn json_of_result_set_rows() {
    let mut set = QueryResultSet::new(vec!["name".to_string(), "age".to_string(), "name".to_string()]);
    set.add_row(QueryRow::new(vec![
        FieldValue::String("John".to_string()),
        FieldValue::Integer(30),
        FieldValue::String("Johnny".to_string()),
    ]))
    .unwrap();
    assert_eq!(
        result_set_to_json_value(&set).unwrap(),
        JsonValue::Array(vec![JsonValue::Object(vec![
            ("name".to_string(), JsonValue::Text("Johnny".to_string())),
            ("age".to_string(), JsonValue::Int(30)),
        ])])
    );
}

#[test]
fn json_of_a_short_row_names_the_missing_column() {
    let set = QueryResultSet::with_rows(
        vec!["name".to_string(), "age".to_string()],
        vec![QueryRow::new(vec![FieldValue::String("John".to_string())])],
    );
    assert_eq!(
        result_set_to_json_value(&set).unwrap_err(),
        "Missing value for column age: Execution error: Column index 1 out of bounds"
    );
}

#[test]
fn failure_reply_carries_the_error() {
    let e = QueryError::syntax("Empty query", 0);
    assert_eq!(failure_reply(&e), "Query execution failed: Syntax error: Empty query at position 0");
}

#[test]
fn resources_are_named_by_their_uris() {
    assert_eq!(resource_of("firm://query-help"), Some(Resource::QueryHelp));
    assert_eq!(resource_of("firm://schema"), Some(Resource::Schema));
    assert_eq!(resource_of("firm://other"), None);
    assert_eq!(resource_of("FIRM://SCHEMA"), None);
}

fn one_person() -> FirmQl {
    let mut graph = EntityGraph::new();
    let person = Entity::new("person.ann", "person").with_field("name", FieldValue::String("Ann".to_string()));
    graph.add_entity(person).unwrap();
    graph.build();
    FirmQl::new(graph)
}

#[test]
fn query_reply_gives_rows_as_json() {
    let ql = one_person();
    match query_reply(&ql, "SELECT name FROM person") {
        Reply::Rows(json) => assert_eq!(
            json,
            JsonValue::Array(vec![JsonValue::Object(vec![("name".to_string(), JsonValue::Text("Ann".to_string()))])])
        ),
        other => panic!("unexpected reply {:?}", other),
    }
    match query_reply(&ql, "SHOW ENTITY TYPES") {
        Reply::Rows(json) => assert_eq!(
            json,
            JsonValue::Array(vec![JsonValue::Object(vec![(
                "entity_type".to_string(),
                JsonValue::Text("person".to_string())
            )])])
        ),
        other => panic!("unexpected reply {:?}", other),
    }
}

#[test]
fn query_reply_passes_on_the_error() {
    let ql = one_person();
    match query_reply(&ql, "SELECT * FROM nothing") {
        Reply::Refused(e) => assert_eq!(failure_reply(&e), "Query execution failed: Unknown entity type: nothing"),
        other => panic!("unexpected reply {:?}", other),
    }
}
