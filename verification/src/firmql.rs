use vstd::prelude::*;
use crate::ast::{ParsedQuery, ParsedStatement};
use crate::engine::QueryEngine;
use crate::error::{concat, owned, ErrorModel, QueryError, QueryResult};
use crate::eval::syntax_error;
use crate::graph::{distinct_types, positions_of_type, Entity, EntityGraph, Field};
use crate::names::{insert_name, sorted_names, strictly_sorted};
use crate::result::{names_view, QueryResultSet, QueryRow};
use crate::select::query_answers;
use crate::sql::{parse_sql, parsed_view, sql_statements};
use crate::text::{
    eq_ignore_ascii, eq_ignore_case, split_words, str_equal, to_lowercase, trim, trimmed, unicode_lowercase,
    words,
};
use crate::value::{FieldValue, ValueModel};

verus! {

/// The name of a value's kind, as DESCRIBE reports it.
pub open spec fn kind_name(v: ValueModel) -> Seq<char> {
    match v {
        ValueModel::Bool(_) => "Boolean"@,
        ValueModel::Str(_) => "String"@,
        ValueModel::Int(_) => "Integer"@,
        ValueModel::Float(_) => "Float"@,
        ValueModel::Currency(..) => "Currency"@,
        ValueModel::Reference(_) => "Reference"@,
        ValueModel::List(_) => "List"@,
        ValueModel::DateTime(..) => "DateTime"@,
        ValueModel::Path(_) => "Path"@,
    }
}

/// Each field of the entities, in order, by its name and the name of its value's kind.
pub open spec fn field_pairs(es: Seq<Entity>) -> Seq<(Seq<char>, Seq<char>)>
    decreases es.len(),
{
    if es.len() == 0 {
        Seq::empty()
    } else {
        field_pairs(es.drop_last()) + es.last().fields@.map_values(|f: Field| (f.name@, kind_name(f.value@)))
    }
}

/// The kind DESCRIBE reports for each field name: the kind first seen, except that a
/// field first seen as a `String` takes the first other kind seen later.
pub open spec fn field_types(ps: Seq<(Seq<char>, Seq<char>)>) -> Map<Seq<char>, Seq<char>>
    decreases ps.len(),
{
    if ps.len() == 0 {
        Map::empty()
    } else {
        let m = field_types(ps.drop_last());
        let (n, t) = ps.last();
        if !m.contains_key(n) || (m[n] == "String"@ && t != "String"@) {
            m.insert(n, t)
        } else {
            m
        }
    }
}

/// The entities at the given positions.
pub open spec fn entities_at(g: Seq<Entity>, ps: Seq<nat>) -> Seq<Entity> {
    ps.map_values(|p: nat| g[p as int])
}

/// The entity type that a `DESCRIBE` query names: two words, the first `DESCRIBE` in any
/// case.
pub open spec fn describe_target(text: Seq<char>) -> Option<Seq<char>> {
    let ws = words(text);
    if ws.len() == 2 && eq_ignore_ascii(ws[0], "DESCRIBE"@) {
        Some(ws[1])
    } else {
        None
    }
}

/// The query that SQL text parses into: exactly one statement, which is a query.
pub open spec fn statements_query(parsed: Result<Seq<ParsedStatement>, Seq<char>>) -> Result<ParsedQuery, ErrorModel> {
    match parsed {
        Err(m) => Err(syntax_error("SQL parse error: "@ + m)),
        Ok(stmts) => if stmts.len() == 0 {
            Err(syntax_error("Empty query"@))
        } else if stmts.len() > 1 {
            Err(syntax_error("Multiple statements not supported"@))
        } else {
            match stmts[0] {
                ParsedStatement::Query(q) => Ok(q),
                ParsedStatement::Other => Err(syntax_error("Only SELECT statements are supported"@)),
            }
        },
    }
}

/// The outcome of a query as a model.
pub open spec fn outcome(r: QueryResult<ParsedQuery>) -> Result<ParsedQuery, ErrorModel> {
    match r {
        Ok(q) => Ok(q),
        Err(e) => Err(e@),
    }
}

/// The query of parsed SQL: refused when the text did not parse, holds no statement or
/// more than one, or holds a statement that is not a query.
pub fn statements_to_query(parsed: Result<Vec<ParsedStatement>, String>) -> (r: QueryResult<ParsedQuery>)
    ensures
        outcome(r) == statements_query(parsed_view(parsed)),
{
    match parsed {
        Err(m) => Err(QueryError::syntax(concat("SQL parse error: ", m.as_str()).as_str(), 0)),
        Ok(mut stmts) => {
            if stmts.len() == 0 {
                return Err(QueryError::syntax("Empty query", 0));
            }
            if stmts.len() > 1 {
                return Err(QueryError::syntax("Multiple statements not supported", 0));
            }
            match stmts.pop() {
                Some(ParsedStatement::Query(q)) => Ok(q),
                _ => Err(QueryError::syntax("Only SELECT statements are supported", 0)),
            }
        },
    }
}

/// Parse a SQL-like query string into a query.
pub fn parse_query(query: &str) -> (r: QueryResult<ParsedQuery>)
    ensures
        outcome(r) == statements_query(sql_statements(query@)),
{
    statements_to_query(parse_sql(query))
}

/// A result set with no execution details recorded.
pub open spec fn plain(set: QueryResultSet) -> bool {
    &&& set.metadata.execution_time_ms is None
    &&& set.metadata.entities_scanned is None
    &&& set.metadata.execution_plan is None
    &&& !set.metadata.truncated
    &&& set.well_formed()
}

/// SHOW ENTITY TYPES: one column, `entity_type`, with each type of the graph once.
pub open spec fn shows_types(res: QueryResult<QueryResultSet>, g: Seq<Entity>) -> bool {
    res matches Ok(set) && plain(set) && set.column_names() == seq!["entity_type"@] && set.row_values()
        == distinct_types(g).map_values(|t: Seq<char>| seq![ValueModel::Str(t)])
}

/// DESCRIBE: the fields of the entities of the type (named in lower case), by name in
/// ascending order, each with its kind; a type without entities is refused.
pub open spec fn describes(res: QueryResult<QueryResultSet>, name: Seq<char>, g: Seq<Entity>) -> bool {
    let t = unicode_lowercase(name);
    let ps = positions_of_type(g, t);
    if ps.len() == 0 {
        res matches Err(e) && e@ == syntax_error("Entity type '"@ + t + "' not found"@)
    } else {
        let m = field_types(field_pairs(entities_at(g, ps)));
        res matches Ok(set) && plain(set) && set.column_names() == seq!["field_name"@, "field_type"@]
            && set.row_values() == sorted_names(m.dom()).map_values(
            |n: Seq<char>| seq![ValueModel::Str(n), ValueModel::Str(m[n])],
        )
    }
}

/// What a query text gives: SHOW ENTITY TYPES and DESCRIBE (compared without ASCII case,
/// around white space) are answered from the graph; any other text is parsed as SQL and
/// run.
pub open spec fn text_answers(res: QueryResult<QueryResultSet>, text: Seq<char>, g: Seq<Entity>) -> bool {
    let t = trimmed(text);
    if eq_ignore_ascii(t, "SHOW ENTITY TYPES"@) {
        shows_types(res, g)
    } else {
        match describe_target(t) {
            Some(name) => describes(res, name, g),
            None => match statements_query(sql_statements(text)) {
                Err(e) => res matches Err(x) && x@ == e,
                Ok(q) => query_answers(res, q, g),
            },
        }
    }
}

/// A query interface over an entity graph.
pub struct FirmQl {
    pub graph: EntityGraph,
}

/// A map from field names to kinds, as a list of entries with distinct names.
pub open spec fn entries_hold(info: Seq<(String, String)>, m: Map<Seq<char>, Seq<char>>) -> bool {
    &&& forall|i: int, j: int| 0 <= i < j < info.len() ==> (#[trigger] info[i]).0@ != (#[trigger] info[j]).0@
    &&& forall|n: Seq<char>| m.contains_key(n) <==> exists|i: int| 0 <= i < info.len() && (#[trigger] info[i]).0@ == n
    &&& forall|i: int| 0 <= i < info.len() ==> m[(#[trigger] info[i]).0@] == info[i].1@
}

/// The position of the entry with the given name.
fn entry_position(info: &Vec<(String, String)>, name: &str) -> (r: Option<usize>)
    ensures
        r matches Some(i) ==> i < info.len() && info@[i as int].0@ == name@,
        r is None ==> forall|i: int| 0 <= i < info.len() ==> (#[trigger] info@[i]).0@ != name@,
{
    let mut i: usize = 0;
    while i < info.len()
        invariant
            i <= info.len(),
            forall|j: int| 0 <= j < i ==> (#[trigger] info@[j]).0@ != name@,
        decreases info.len() - i,
    {
        if str_equal(info[i].0.as_str(), name) {
            return Some(i);
        }
        i = i + 1;
    }
    None
}

impl FirmQl {
    /// A query interface over the graph.
    pub fn new(graph: EntityGraph) -> (r: Self)
        ensures
            r.graph == graph,
    {
        FirmQl { graph }
    }

    /// Runs a query: SHOW ENTITY TYPES, DESCRIBE, or a SELECT.
    pub fn query(&self, query: &str) -> (res: QueryResult<QueryResultSet>)
        ensures
            text_answers(res, query@, self.graph.entities@),
    {
        let trimmed_text = trim(query);
        if eq_ignore_case(trimmed_text.as_str(), "SHOW ENTITY TYPES") {
            return self.show_entity_types();
        }
        if let Some(entity_type) = self.parse_describe_query(trimmed_text.as_str()) {
            return self.describe_entity_type(entity_type.as_str());
        }
        let q = parse_query(query)?;
        let engine = QueryEngine::new();
        engine.execute(&q, &self.graph)
    }

    /// Returns all entity types in the graph.
    fn show_entity_types(&self) -> (res: QueryResult<QueryResultSet>)
        ensures
            shows_types(res, self.graph.entities@),
    {
        let entity_types = self.graph.get_all_entity_types();
        let mut columns: Vec<String> = Vec::new();
        columns.push(owned("entity_type"));
        let mut result_set = QueryResultSet::new(columns);
        let ghost want = distinct_types(self.graph.entities@).map_values(|t: Seq<char>| seq![ValueModel::Str(t)]);
        let mut i: usize = 0;
        assert(result_set.row_values() =~= want.take(0));
        while i < entity_types.len()
            invariant
                i <= entity_types.len(),
                entity_types@.map_values(|s: String| s@) == distinct_types(self.graph.entities@),
                want == distinct_types(self.graph.entities@).map_values(|t: Seq<char>| seq![ValueModel::Str(t)]),
                result_set.columns@.len() == 1,
                result_set.columns@[0]@ == "entity_type"@,
                plain(result_set),
                result_set.row_values() == want.take(i as int),
            decreases entity_types.len() - i,
        {
            let mut values: Vec<FieldValue> = Vec::new();
            values.push(FieldValue::String(entity_types[i].clone()));
            let row = QueryRow::new(values);
            let ghost before = result_set.row_values();
            let r = result_set.add_row(row);
            assert(r is Ok);
            assert(row@ =~= want[i as int]) by {
                assert(entity_types@.map_values(|s: String| s@)[i as int] == entity_types@[i as int]@);
            }
            assert(result_set.row_values() =~= want.take(i + 1)) by {
                assert(result_set.row_values() =~= before.push(row@));
            }
            i = i + 1;
        }
        assert(want.take(entity_types.len() as int) =~= want);
        assert(result_set.column_names() =~= seq!["entity_type"@]);
        Ok(result_set)
    }

    /// Returns the schema of an entity type, inferred from its entities.
    fn describe_entity_type(&self, entity_type: &str) -> (res: QueryResult<QueryResultSet>)
        ensures
            describes(res, entity_type@, self.graph.entities@),
    {
        let ghost g = self.graph.entities@;
        let lowered = to_lowercase(entity_type);
        let ps = self.graph.list_by_type(lowered.as_str());
        let ghost pv = positions_of_type(g, lowered@);
        assert(ps@.len() == pv.len());
        if ps.len() == 0 {
            let mut m = concat("Entity type '", lowered.as_str());
            vstd::string::StringExecFns::append(&mut m, "' not found");
            return Err(QueryError::syntax(m.as_str(), 0));
        }
        proof {
            crate::engine::lemma_positions_bound(g, lowered@);
        }
        let ghost es = entities_at(g, pv);
        let mut info: Vec<(String, String)> = Vec::new();
        let mut i: usize = 0;
        assert(es.take(0) =~= Seq::<Entity>::empty());
        assert(entries_hold(info@, field_types(field_pairs(es.take(0)))));
        while i < ps.len()
            invariant
                i <= ps.len(),
                ps@.len() == pv.len(),
                pv == positions_of_type(g, lowered@),
                ps@.map_values(|k: usize| k as nat) == pv,
                g == self.graph.entities@,
                es == entities_at(g, pv),
                forall|k: int| 0 <= k < pv.len() ==> #[trigger] pv[k] < g.len(),
                entries_hold(info@, field_types(field_pairs(es.take(i as int)))),
            decreases ps.len() - i,
        {
            assert(ps@[i as int] as nat == pv[i as int]);
            let e = &self.graph.entities[ps[i]];
            assert(*e == es[i as int]);
            let ghost done = field_pairs(es.take(i as int));
            assert(es.take(i + 1).drop_last() == es.take(i as int));
            assert(es.take(i + 1).last() == *e);
            let ghost fps = e.fields@.map_values(|f: Field| (f.name@, kind_name(f.value@)));
            assert(field_pairs(es.take(i + 1)) == done + fps);
            let mut f: usize = 0;
            assert(done + fps.take(0) =~= done);
            while f < e.fields.len()
                invariant
                    f <= e.fields.len(),
                    fps == e.fields@.map_values(|f: Field| (f.name@, kind_name(f.value@))),
                    entries_hold(info@, field_types(done + fps.take(f as int))),
                decreases e.fields.len() - f,
            {
                let ghost before = field_types(done + fps.take(f as int));
                assert((done + fps.take(f + 1)).drop_last() =~= done + fps.take(f as int));
                assert((done + fps.take(f + 1)).last() == fps[f as int]);
                let name = &e.fields[f].name;
                let ty = self.infer_field_type(&e.fields[f].value);
                let ghost after = field_types(done + fps.take(f + 1));
                match entry_position(&info, name.as_str()) {
                    Some(k) => {
                        assert(before.contains_key(name@));
                        assert(before[name@] == info@[k as int].1@);
                        if str_equal(info[k].1.as_str(), "String") && !str_equal(ty.as_str(), "String") {
                            let ghost old_info = info@;
                            info.set(k, (name.clone(), ty));
                            assert(after == before.insert(name@, fps[f as int].1));
                            assert forall|x: int| 0 <= x < info@.len() implies after[(#[trigger] info@[x]).0@] == info@[x].1@ by {
                                if x != k {
                                    assert(info@[x] == old_info[x]);
                                }
                            }
                            assert forall|n: Seq<char>| after.contains_key(n) <==> exists|x: int|
                                0 <= x < info@.len() && (#[trigger] info@[x]).0@ == n by {
                                if after.contains_key(n) && n != name@ {
                                    let x = choose|x: int| 0 <= x < old_info.len() && (#[trigger] old_info[x]).0@ == n;
                                    assert(info@[x] == old_info[x]);
                                }
                                if n == name@ {
                                    assert(info@[k as int].0@ == n);
                                }
                                if exists|x: int| 0 <= x < info@.len() && (#[trigger] info@[x]).0@ == n {
                                    let x = choose|x: int| 0 <= x < info@.len() && (#[trigger] info@[x]).0@ == n;
                                    if x != k {
                                        assert(info@[x] == old_info[x]);
                                    }
                                }
                            }
                            assert forall|a: int, b: int| 0 <= a < b < info@.len() implies (#[trigger] info@[a]).0@
                                != (#[trigger] info@[b]).0@ by {
                                if a != k {
                                    assert(info@[a] == old_info[a]);
                                }
                                if b != k {
                                    assert(info@[b] == old_info[b]);
                                }
                            }
                        } else {
                            assert(after == before);
                        }
                    },
                    None => {
                        assert(!before.contains_key(name@));
                        let ghost old_info = info@;
                        info.push((name.clone(), ty));
                        assert(after == before.insert(name@, fps[f as int].1));
                        assert forall|x: int| 0 <= x < info@.len() implies after[(#[trigger] info@[x]).0@] == info@[x].1@ by {
                            if x < old_info.len() {
                                assert(info@[x] == old_info[x]);
                            }
                        }
                        assert forall|n: Seq<char>| after.contains_key(n) <==> exists|x: int|
                            0 <= x < info@.len() && (#[trigger] info@[x]).0@ == n by {
                            if after.contains_key(n) && n != name@ {
                                let x = choose|x: int| 0 <= x < old_info.len() && (#[trigger] old_info[x]).0@ == n;
                                assert(info@[x] == old_info[x]);
                            }
                            if n == name@ {
                                assert(info@[old_info.len() as int].0@ == n);
                            }
                            if exists|x: int| 0 <= x < info@.len() && (#[trigger] info@[x]).0@ == n {
                                let x = choose|x: int| 0 <= x < info@.len() && (#[trigger] info@[x]).0@ == n;
                                if x < old_info.len() {
                                    assert(info@[x] == old_info[x]);
                                }
                            }
                        }
                        assert forall|a: int, b: int| 0 <= a < b < info@.len() implies (#[trigger] info@[a]).0@
                            != (#[trigger] info@[b]).0@ by {
                            assert(info@[a] == old_info[a]);
                            if b < old_info.len() {
                                assert(info@[b] == old_info[b]);
                            }
                        }
                    },
                }
                f = f + 1;
            }
            assert(fps.take(e.fields.len() as int) == fps);
            i = i + 1;
        }
        assert(es.take(ps.len() as int) == es);
        let ghost m = field_types(field_pairs(es));
        let mut names: Vec<String> = Vec::new();
        let mut k: usize = 0;
        assert(crate::eval::texts(names@).to_set() =~= Set::<Seq<char>>::empty());
        while k < info.len()
            invariant
                k <= info.len(),
                entries_hold(info@, m),
                strictly_sorted(crate::eval::texts(names@)),
                crate::eval::texts(names@).to_set() == Set::new(
                    |n: Seq<char>| exists|x: int| 0 <= x < k && (#[trigger] info@[x]).0@ == n,
                ),
            decreases info.len() - k,
        {
            insert_name(&mut names, info[k].0.clone());
            assert(crate::eval::texts(names@).to_set() =~= Set::new(
                |n: Seq<char>| exists|x: int| 0 <= x < k + 1 && (#[trigger] info@[x]).0@ == n,
            ));
            k = k + 1;
        }
        assert(crate::eval::texts(names@).to_set() =~= m.dom());
        proof {
            crate::names::lemma_sorted_names(crate::eval::texts(names@));
        }
        let ghost order = sorted_names(m.dom());
        let ghost want = order.map_values(|n: Seq<char>| seq![ValueModel::Str(n), ValueModel::Str(m[n])]);
        let mut columns: Vec<String> = Vec::new();
        columns.push(owned("field_name"));
        columns.push(owned("field_type"));
        let mut result_set = QueryResultSet::new(columns);
        let mut j: usize = 0;
        assert(result_set.row_values() =~= want.take(0));
        while j < names.len()
            invariant
                j <= names.len(),
                entries_hold(info@, m),
                crate::eval::texts(names@) == order,
                order.to_set() == m.dom(),
                want == order.map_values(|n: Seq<char>| seq![ValueModel::Str(n), ValueModel::Str(m[n])]),
                result_set.columns@.len() == 2,
                result_set.columns@[0]@ == "field_name"@,
                result_set.columns@[1]@ == "field_type"@,
                plain(result_set),
                result_set.row_values() == want.take(j as int),
            decreases names.len() - j,
        {
            assert(order[j as int] == names@[j as int]@);
            assert(m.dom().contains(names@[j as int]@)) by {
                assert(order.contains(order[j as int]));
            }
            let pos = entry_position(&info, names[j].as_str());
            let t = match pos {
                Some(p) => info[p].1.clone(),
                None => {
                    assert(false);
                    owned("")
                },
            };
            let mut values: Vec<FieldValue> = Vec::new();
            values.push(FieldValue::String(names[j].clone()));
            values.push(FieldValue::String(t));
            let row = QueryRow::new(values);
            let ghost before = result_set.row_values();
            let r = result_set.add_row(row);
            assert(r is Ok);
            assert(row@ =~= want[j as int]);
            assert(result_set.row_values() =~= want.take(j + 1)) by {
                assert(result_set.row_values() =~= before.push(row@));
            }
            j = j + 1;
        }
        assert(want.take(names.len() as int) =~= want);
        assert(result_set.column_names() =~= seq!["field_name"@, "field_type"@]);
        Ok(result_set)
    }

    /// The entity type that a DESCRIBE query names.
    fn parse_describe_query(&self, query: &str) -> (r: Option<String>)
        ensures
            option_text(r) == describe_target(query@),
    {
        let parts = split_words(query);
        assert(parts@.len() == words(query@).len());
        if parts.len() == 2 && eq_ignore_case(parts[0].as_str(), "DESCRIBE") {
            assert(parts@.map_values(|w: String| w@)[0] == parts@[0]@);
            assert(parts@.map_values(|w: String| w@)[1] == parts@[1]@);
            Some(parts[1].clone())
        } else {
            proof {
                if parts@.len() == 2 {
                    assert(parts@.map_values(|w: String| w@)[0] == parts@[0]@);
                }
            }
            None
        }
    }

    /// The kind of a field value, by name.
    fn infer_field_type(&self, field_value: &FieldValue) -> (r: String)
        ensures
            r@ == kind_name(field_value@),
    {
        match field_value {
            FieldValue::Boolean(_) => owned("Boolean"),
            FieldValue::String(_) => owned("String"),
            FieldValue::Integer(_) => owned("Integer"),
            FieldValue::Float(_) => owned("Float"),
            FieldValue::Currency { .. } => owned("Currency"),
            FieldValue::Reference(_) => owned("Reference"),
            FieldValue::List(_) => owned("List"),
            FieldValue::DateTime(_) => owned("DateTime"),
            FieldValue::Path(_) => owned("Path"),
        }
    }
}

/// An optional string as an optional text.
pub open spec fn option_text(o: Option<String>) -> Option<Seq<char>> {
    match o {
        Some(s) => Some(s@),
        None => None,
    }
}

} // verus!
