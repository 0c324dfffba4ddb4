use firm_ql::ast::ParsedStatement;
use firm_ql::engine::QueryEngine;
use firm_ql::graph::{Entity, EntityGraph};
use firm_ql::sql::parse_sql;
use firm_ql::value::FieldValue;

fn create_test_graph() -> EntityGraph {
    let mut graph = EntityGraph::new();

    let person1 = Entity::new("person.john", "person")
        .with_field("name", FieldValue::String("John Doe".to_string()))
        .with_field("age", FieldValue::Integer(30));

    let person2 = Entity::new("person.jane", "person")
        .with_field("name", FieldValue::String("Jane Smith".to_string()))
        .with_field("age", FieldValue::Integer(25));

    graph.add_entity(person1).unwrap();
    graph.add_entity(person2).unwrap();
    graph.build();
    graph
}

#[test]
fn test_execute_simple_select() {
    let graph = create_test_graph();
    let engine = QueryEngine::new();
    let query = parse_sql("SELECT * FROM person").unwrap();

    if let ParsedStatement::Query(q) = &query[0] {
        let result = engine.execute(q, &graph);
        assert!(result.is_ok());
    }
}
