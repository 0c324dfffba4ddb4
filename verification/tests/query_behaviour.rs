use firm_ql::eval::like_values;
use firm_ql::cli::{execute_query, table_format, OutputFormat, QueryOutput};
use firm_ql::graph::{Entity, EntityGraph};
use firm_ql::result::{QueryResultSet, QueryRow};
use firm_ql::value::{FieldValue, ReferenceValue};
use firm_ql::{parse_query, FirmQl};

fn text(s: &str) -> FieldValue {
    FieldValue::String(s.to_string())
}

fn small_graph() -> EntityGraph {
    let mut graph = EntityGraph::new();
    graph
        .add_entity(
            Entity::new("person.ann", "person")
                .with_field("name", text("Ann"))
                .with_field("age", FieldValue::Integer(40))
                .with_field("team", text("red")),
        )
        .unwrap();
    graph
        .add_entity(
            Entity::new("person.bob", "person")
                .with_field("name", text("Bob"))
                .with_field("age", FieldValue::Integer(25))
                .with_field("team", text("blue")),
        )
        .unwrap();
    graph
        .add_entity(
            Entity::new("person.cat", "person")
                .with_field("name", text("Cat"))
                .with_field("age", FieldValue::Integer(40))
                .with_field("phone", text("555")),
        )
        .unwrap();
    graph
        .add_entity(
            Entity::new("team.red", "team")
                .with_field("team", text("red"))
                .with_field("lead_ref", FieldValue::Reference(ReferenceValue::Entity("person.ann".to_string()))),
        )
        .unwrap();
    graph
        .add_entity(Entity::new("team.green", "team").with_field("team", text("green")))
        .unwrap();
    graph.build();
    graph
}

fn names(set: &QueryResultSet, column: usize) -> Vec<String> {
    set.rows
        .iter()
        .map(|r| match &r.values[column] {
            FieldValue::String(s) => s.clone(),
            other => format!("{:?}", other),
        })
        .collect()
}

fn error_of(q: &FirmQl, text: &str) -> String {
    q.query(text).unwrap_err().to_message()
}

#[test]
fn join_counts_follow_the_join_kind() {
    let q = FirmQl::new(small_graph());
    let inner = q.query("SELECT name FROM person JOIN team USING (team)").unwrap().len();
    let left = q.query("SELECT name FROM person LEFT JOIN team USING (team)").unwrap().len();
    let right = q.query("SELECT name FROM person RIGHT JOIN team USING (team)").unwrap().len();
    let full = q.query("SELECT name FROM person FULL JOIN team USING (team)").unwrap().len();
    assert_eq!(inner, 1);
    assert_eq!(left, 3);
    assert_eq!(right, 2);
    assert_eq!(full, 4);
    let cross = q.query("SELECT name FROM person CROSS JOIN team").unwrap().len();
    assert_eq!(cross, 6);
    let comma = q.query("SELECT name FROM person, team").unwrap().len();
    assert_eq!(comma, 6);
}

#[test]
fn where_keeps_the_true_rows_in_order() {
    let q = FirmQl::new(small_graph());
    let set = q.query("SELECT name FROM person WHERE age > 30").unwrap();
    assert_eq!(names(&set, 0), vec!["Ann", "Cat"]);
}

#[test]
fn not_like_and_not_in_complement_like_and_in() {
    let q = FirmQl::new(small_graph());
    let like = q.query("SELECT name FROM person WHERE name LIKE '%a%'").unwrap();
    let not_like = q.query("SELECT name FROM person WHERE name NOT LIKE '%a%'").unwrap();
    assert_eq!(names(&like, 0), vec!["Cat"]);
    assert_eq!(names(&not_like, 0), vec!["Ann", "Bob"]);
    let ilike = q.query("SELECT name FROM person WHERE name ILIKE 'a%'").unwrap();
    assert_eq!(names(&ilike, 0), vec!["Ann"]);
    let in_list = q.query("SELECT name FROM person WHERE age IN (25, 26)").unwrap();
    let not_in = q.query("SELECT name FROM person WHERE age NOT IN (25, 26)").unwrap();
    assert_eq!(names(&in_list, 0), vec!["Bob"]);
    assert_eq!(names(&not_in, 0), vec!["Ann", "Cat"]);
}

#[test]
fn is_null_and_is_not_null_split_the_rows() {
    let q = FirmQl::new(small_graph());
    let null = q.query("SELECT name FROM person WHERE phone IS NULL").unwrap();
    let not_null = q.query("SELECT name FROM person WHERE phone IS NOT NULL").unwrap();
    assert_eq!(names(&null, 0), vec!["Ann", "Bob"]);
    assert_eq!(names(&not_null, 0), vec!["Cat"]);
}

#[test]
fn comparisons_read_both_ways() {
    let q = FirmQl::new(small_graph());
    let a = q.query("SELECT name FROM person WHERE age < 30").unwrap();
    let b = q.query("SELECT name FROM person WHERE 30 > age").unwrap();
    assert_eq!(names(&a, 0), names(&b, 0));
    let c = q.query("SELECT name FROM person WHERE 'Bob' = name").unwrap();
    assert_eq!(names(&c, 0), vec!["Bob"]);
}

#[test]
fn order_by_keeps_ties_in_their_order() {
    let q = FirmQl::new(small_graph());
    let set = q.query("SELECT name FROM person ORDER BY age DESC").unwrap();
    assert_eq!(names(&set, 0), vec!["Ann", "Cat", "Bob"]);
    let set = q.query("SELECT name FROM person ORDER BY age, name DESC").unwrap();
    assert_eq!(names(&set, 0), vec!["Bob", "Cat", "Ann"]);
}

#[test]
fn limit_and_offset_cut_the_rows() {
    let q = FirmQl::new(small_graph());
    assert_eq!(names(&q.query("SELECT name FROM person LIMIT 2").unwrap(), 0), vec!["Ann", "Bob"]);
    assert_eq!(names(&q.query("SELECT name FROM person LIMIT 5 OFFSET 1").unwrap(), 0), vec!["Bob", "Cat"]);
    assert_eq!(q.query("SELECT name FROM person LIMIT 0").unwrap().len(), 0);
    assert_eq!(q.query("SELECT name FROM person OFFSET 1").unwrap().len(), 3);
    assert_eq!(
        error_of(&q, "SELECT name FROM person LIMIT 'two'"),
        "Syntax error: LIMIT/OFFSET must be a number at position 0"
    );
    assert_eq!(
        error_of(&q, "SELECT name FROM person LIMIT 99999999999999999999"),
        "Syntax error: Invalid LIMIT/OFFSET value at position 0"
    );
}

#[test]
fn errors_name_what_went_wrong() {
    let q = FirmQl::new(small_graph());
    assert_eq!(error_of(&q, "SELECT 1"), "Syntax error: FROM clause is required at position 0");
    assert_eq!(error_of(&q, "SELECT * FROM robot"), "Unknown entity type: robot");
    assert_eq!(
        error_of(&q, "SELECT name FROM person; SELECT name FROM team"),
        "Syntax error: Multiple statements not supported at position 0"
    );
    assert_eq!(error_of(&q, ""), "Syntax error: Empty query at position 0");
    assert_eq!(
        error_of(&q, "DELETE FROM person"),
        "Syntax error: Only SELECT statements are supported at position 0"
    );
    assert_eq!(
        error_of(&q, "SELECT name FROM person UNION SELECT name FROM team"),
        "Syntax error: Only SELECT statements are supported at position 0"
    );
    assert_eq!(
        error_of(&q, "SELECT name FROM (SELECT name FROM person) AS p"),
        "Syntax error: Only table references are supported at position 0"
    );
    assert_eq!(
        error_of(&q, "SELECT FOO(name) FROM person"),
        "Syntax error: Unsupported function: FOO at position 0"
    );
    assert_eq!(
        error_of(&q, "SELECT name FROM person WHERE -name = 1"),
        "Syntax error: Cannot negate non-numeric value at position 0"
    );
    assert_eq!(
        error_of(&q, "SELECT name, * FROM person"),
        "Execution error: Row has 7 values but expected 6 columns"
    );
    assert!(error_of(&q, "SELECT * FROM person WHERE").starts_with("Syntax error: SQL parse error: "));
}

#[test]
fn wildcards_name_sorted_columns() {
    let q = FirmQl::new(small_graph());
    let set = q.query("SELECT * FROM team").unwrap();
    assert_eq!(set.columns, vec!["id", "lead_ref", "team"]);
    assert_eq!(set.rows[1].values, vec![text("team.green"), text("NULL"), text("green")]);
    let set = q.query("SELECT t.* FROM team AS t").unwrap();
    assert_eq!(set.columns, vec!["t.id", "t.lead_ref", "t.team"]);
    assert_eq!(set.rows[0].values[0], text("team.red"));
}

#[test]
fn expressions_compute_values() {
    let q = FirmQl::new(small_graph());
    let set = q.query("SELECT age + 2, age / 2, age * 1.5, COUNT(*) FROM person LIMIT 1").unwrap();
    assert_eq!(set.columns, vec!["expr", "expr", "expr", "COUNT(...)"]);
    assert_eq!(set.rows[0].values[0], FieldValue::Integer(42));
    assert_eq!(set.rows[0].values[1], FieldValue::Integer(20));
    assert_eq!(set.rows[0].values[2], FieldValue::Float(60.0f64.to_bits()));
    assert_eq!(set.rows[0].values[3], FieldValue::Integer(1));
    let set = q.query("SELECT age / 3 FROM person LIMIT 1").unwrap();
    assert_eq!(set.rows[0].values[0], FieldValue::Float((40.0f64 / 3.0).to_bits()));
    let set = q.query("SELECT team.lead_ref.name FROM team LIMIT 1").unwrap();
    assert_eq!(set.rows[0].values[0], text("Ann"));
}

#[test]
fn show_and_describe_answer_from_the_graph() {
    let q = FirmQl::new(small_graph());
    let set = q.query("  show ENTITY types ").unwrap();
    assert_eq!(set.columns, vec!["entity_type"]);
    assert_eq!(names(&set, 0), vec!["person", "team"]);
    let set = q.query("describe  Person").unwrap();
    assert_eq!(set.columns, vec!["field_name", "field_type"]);
    assert_eq!(names(&set, 0), vec!["age", "name", "phone", "team"]);
    assert_eq!(names(&set, 1), vec!["Integer", "String", "String", "String"]);
    assert!(q.query("DESCRIBE person extra").is_err());
}

#[test]
fn describe_upgrades_a_string_field_to_a_later_kind() {
    let mut graph = EntityGraph::new();
    graph.add_entity(Entity::new("x.a", "x").with_field("v", text("one"))).unwrap();
    graph.add_entity(Entity::new("x.b", "x").with_field("v", FieldValue::Integer(1))).unwrap();
    graph.add_entity(Entity::new("x.c", "x").with_field("v", FieldValue::Boolean(true))).unwrap();
    let q = FirmQl::new(graph);
    let set = q.query("DESCRIBE x").unwrap();
    assert_eq!(names(&set, 1), vec!["Integer"]);
    assert_eq!(error_of(&q, "DESCRIBE y"), "Syntax error: Entity type 'y' not found at position 0");
}

#[test]
fn entity_types_are_kept_in_lower_case() {
    let mut graph = EntityGraph::new();
    graph.add_entity(Entity::new("p.a", "Person").with_field("name", text("A"))).unwrap();
    assert_eq!(graph.entities[0].entity_type, "person");
    assert!(graph.add_entity(Entity::new("p.a", "person")).is_err());
    let q = FirmQl::new(graph);
    assert_eq!(q.query("SELECT name FROM PERSON").unwrap().len(), 1);
}

#[test]
fn parse_query_keeps_the_parts_queries_use() {
    let q = parse_query("SELECT name FROM person ORDER BY name DESC LIMIT 3").unwrap();
    assert!(q.order_by.is_some());
    assert!(q.limit.is_some());
    assert!(q.offset.is_none());
}

#[test]
fn result_set_text_shows_header_rows_and_count() {
    let mut set = QueryResultSet::new(vec!["name".to_string(), "tags".to_string()]);
    set.add_row(QueryRow::new(vec![
        text("Ann"),
        FieldValue::List(vec![FieldValue::Integer(1), FieldValue::Boolean(false)]),
    ]))
    .unwrap();
    assert_eq!(set.to_text(), "name | tags\n-----------\nAnn | [1, false]\n\n(1 rows)\n");
}

#[test]
fn table_lines_show_rows_and_details() {
    let mut set = QueryResultSet::new(vec!["név".to_string()]);
    assert_eq!(table_format(&set), vec!["No results found."]);
    set.add_row(QueryRow::new(vec![FieldValue::Integer(7)])).unwrap();
    set.metadata.entities_scanned = Some(3);
    assert_eq!(table_format(&set), vec!["név", "----", "7", "", "(1 row)", "Entities scanned: 3"]);
}

#[test]
fn execute_query_shows_results_or_the_error() {
    match execute_query(small_graph(), "SELECT name FROM person LIMIT 1", OutputFormat::Pretty) {
        QueryOutput::Table(lines) => {
            assert_eq!(lines[0], "name");
            assert_eq!(lines[2], "Ann");
            assert_eq!(lines[4], "(1 row)");
            assert_eq!(lines[6], "Entities scanned: 3");
        },
        other => panic!("unexpected {:?}", other),
    }
    match execute_query(small_graph(), "SELECT name FROM person", OutputFormat::Json) {
        QueryOutput::Json(set) => assert_eq!(set.len(), 3),
        other => panic!("unexpected {:?}", other),
    }
    match execute_query(small_graph(), "SELECT name FROM robot", OutputFormat::Pretty) {
        QueryOutput::Failed(details) => assert_eq!(details, "Unknown entity type: robot"),
        other => panic!("unexpected {:?}", other),
    }
}

#[test]
fn like_on_numbers_and_references_uses_their_text() {
    let q = FirmQl::new(small_graph());
    let set = q.query("SELECT name FROM person WHERE age LIKE '4%'").unwrap();
    assert_eq!(names(&set, 0), vec!["Ann", "Cat"]);
    let set = q.query("SELECT team FROM team WHERE lead_ref LIKE 'person.%'").unwrap();
    assert_eq!(names(&set, 0), vec!["red"]);
}

#[test]
fn outside_computations_reach_the_results() {
    let q = FirmQl::new(small_graph());
    assert_eq!(error_of(&q, "SELECT foo(name) FROM person"), "Syntax error: Unsupported function: FOO at position 0");
    let set = q.query("SELECT age % 7, age - 50 FROM person LIMIT 1").unwrap();
    assert_eq!(set.rows[0].values[0], FieldValue::Integer(5));
    assert_eq!(set.rows[0].values[1], FieldValue::Integer(-10));
    let set = q.query("SELECT name FROM person WHERE 2.5 LIKE '2.5'").unwrap();
    assert_eq!(set.len(), 3);
    let set = q.query("SELECT max(age), sum(age), avg(age) FROM person LIMIT 1").unwrap();
    assert_eq!(set.rows[0].values[0], FieldValue::Integer(40));
    assert_eq!(set.rows[0].values[1], FieldValue::Float(40.0f64.to_bits()));
    assert_eq!(set.rows[0].values[2], FieldValue::Float(40.0f64.to_bits()));
}

#[test]
fn like_past_the_end_of_the_text_matches_the_pieces_in_order() {
    let text = FieldValue::String("éééb x".to_string());
    let pattern = FieldValue::String("%b%x%".to_string());
    assert_eq!(like_values(&text, &pattern, false, false).unwrap(), FieldValue::Boolean(true));
    assert_eq!(like_values(&text, &pattern, true, false).unwrap(), FieldValue::Boolean(false));
    let short = FieldValue::String("éa".to_string());
    let doubled = FieldValue::String("%a%%".to_string());
    assert_eq!(like_values(&short, &doubled, false, false).unwrap(), FieldValue::Boolean(true));
    let missing = FieldValue::String("%b%z%".to_string());
    assert_eq!(like_values(&text, &missing, false, false).unwrap(), FieldValue::Boolean(false));
}

#[test]
fn one_sided_on_condition_join_counts() {
    let q = FirmQl::new(small_graph());
    let count = |kind: &str| q.query(&format!("SELECT name FROM person {} JOIN team ON name = 'Ann'", kind)).unwrap().len();
    let inner = count("INNER");
    let left = count("LEFT");
    let right = count("RIGHT");
    let full = count("FULL");
    assert_eq!((inner, left, right, full), (2, 4, 2, 4));
    assert!(right >= inner && full >= right && full >= left && left >= inner);
}

#[test]
fn select_records_time_and_scanned_rows() {
    let q = FirmQl::new(small_graph());
    let set = q.query("SELECT name FROM person WHERE age > 30").unwrap();
    assert!(set.metadata.execution_time_ms.is_some());
    assert_eq!(set.metadata.entities_scanned, Some(3));
}
