use vstd::prelude::*;
use vstd::string::StringExecFns;
use crate::error::{concat, error_text, owned, ErrorModel, QueryError, QueryResult};
use crate::firmql::{text_answers, FirmQl};
use crate::float::{is_finite, is_nan, sign_bit};
use crate::result::{bounds_message, names_view, QueryResultSet};
use crate::value::{list_model, ref_text, FieldValue, ValueModel};
use crate::text::str_equal;

verus! {

broadcast use {
    vstd::std_specs::vec::axiom_vec_decreases_to_view,
    vstd::std_specs::vec::axiom_vec_index_decreases,
};

/// A JSON value, as query results are handed on.
#[derive(Debug, PartialEq)]
pub enum JsonValue {
    Bool(bool),
    Int(i64),
    /// A finite double, by its bit pattern.
    Float(u64),
    Text(String),
    Array(Vec<JsonValue>),
    /// An object: its members in order, each name once.
    Object(Vec<(String, JsonValue)>),
}

/// Mathematical model of a JSON value.
pub enum JsonModel {
    Bool(bool),
    Int(i64),
    Float(u64),
    Text(Seq<char>),
    Array(Seq<JsonModel>),
    Object(Seq<(Seq<char>, JsonModel)>),
}

impl JsonValue {
    pub open spec fn model(&self) -> JsonModel
        decreases self,
    {
        match self {
            JsonValue::Bool(b) => JsonModel::Bool(*b),
            JsonValue::Int(n) => JsonModel::Int(*n),
            JsonValue::Float(b) => JsonModel::Float(*b),
            JsonValue::Text(s) => JsonModel::Text(s@),
            JsonValue::Array(items) => JsonModel::Array(json_items(items@)),
            JsonValue::Object(members) => JsonModel::Object(json_members(members@)),
        }
    }
}

/// The models of JSON values, in order.
pub open spec fn json_items(items: Seq<JsonValue>) -> Seq<JsonModel>
    decreases items,
{
    if items.len() == 0 {
        Seq::empty()
    } else {
        seq![items[0].model()] + json_items(items.subrange(1, items.len() as int))
    }
}

/// The models of an object's members, in order.
pub open spec fn json_members(members: Seq<(String, JsonValue)>) -> Seq<(Seq<char>, JsonModel)>
    decreases members,
{
    if members.len() == 0 {
        Seq::empty()
    } else {
        seq![(members[0].0@, members[0].1.model())] + json_members(members.subrange(1, members.len() as int))
    }
}

impl View for JsonValue {
    type V = JsonModel;

    open spec fn view(&self) -> JsonModel {
        self.model()
    }
}

proof fn lemma_json_items_index(items: Seq<JsonValue>)
    ensures
        json_items(items).len() == items.len(),
        forall|i: int| 0 <= i < items.len() ==> #[trigger] json_items(items)[i] == items[i]@,
    decreases items.len(),
{
    if items.len() > 0 {
        let rest = items.subrange(1, items.len() as int);
        lemma_json_items_index(rest);
        assert forall|i: int| 0 <= i < items.len() implies #[trigger] json_items(items)[i] == items[i]@ by {
            if i > 0 {
                assert(rest[i - 1] == items[i]);
            }
        }
    }
}

proof fn lemma_json_members_index(members: Seq<(String, JsonValue)>)
    ensures
        json_members(members).len() == members.len(),
        forall|i: int|
            0 <= i < members.len() ==> #[trigger] json_members(members)[i] == (members[i].0@, members[i].1@),
    decreases members.len(),
{
    if members.len() > 0 {
        let rest = members.subrange(1, members.len() as int);
        lemma_json_members_index(rest);
        assert forall|i: int| 0 <= i < members.len() implies #[trigger] json_members(members)[i] == (
            members[i].0@,
            members[i].1@,
        ) by {
            if i > 0 {
                assert(rest[i - 1] == members[i]);
            }
        }
    }
}

/// The text of a double that is not finite, as it is displayed.
pub open spec fn nonfinite_text(b: u64) -> Seq<char> {
    if is_nan(b) {
        "NaN"@
    } else if b & sign_bit() != 0 {
        "-inf"@
    } else {
        "inf"@
    }
}

/// The JSON of a field value: texts, references, points in time and paths as strings,
/// numbers as numbers, a currency as an object of its amount and currency, a list as an
/// array; a double that is not finite has none.
pub open spec fn value_json(v: ValueModel) -> Result<JsonModel, Seq<char>>
    decreases v, 1int,
{
    match v {
        ValueModel::Str(s) => Ok(JsonModel::Text(s)),
        ValueModel::Int(n) => Ok(JsonModel::Int(n)),
        ValueModel::Float(b) => if is_finite(b) {
            Ok(JsonModel::Float(b))
        } else {
            Err("Invalid float number: "@ + nonfinite_text(b))
        },
        ValueModel::Bool(b) => Ok(JsonModel::Bool(b)),
        ValueModel::DateTime(_, _, t) => Ok(JsonModel::Text(t)),
        ValueModel::List(items) => match items_json(items) {
            Ok(js) => Ok(JsonModel::Array(js)),
            Err(e) => Err(e),
        },
        ValueModel::Reference(r) => Ok(JsonModel::Text(ref_text(r))),
        ValueModel::Currency(a, c) => Ok(
            JsonModel::Object(seq![("amount"@, JsonModel::Text(a)), ("currency"@, JsonModel::Text(c))]),
        ),
        ValueModel::Path(p) => Ok(JsonModel::Text(p)),
    }
}

/// The JSON of a list's items, in order; the first item that has none gives its error.
pub open spec fn items_json(items: Seq<ValueModel>) -> Result<Seq<JsonModel>, Seq<char>>
    decreases items, 0int,
{
    if items.len() == 0 {
        Ok(Seq::empty())
    } else {
        proof {
            assert(decreases_to!(items => items.drop_last()));
        }
        match items_json(items.drop_last()) {
            Ok(js) => match value_json(items.last()) {
                Ok(j) => Ok(js.push(j)),
                Err(e) => Err(e),
            },
            Err(e) => Err(e),
        }
    }
}

/// An object's members with a member set: a member of the same name takes the value in
/// its place, or the member goes last.
pub open spec fn set_member(members: Seq<(Seq<char>, JsonModel)>, name: Seq<char>, value: JsonModel) -> Seq<
    (Seq<char>, JsonModel),
> {
    if exists|i: int| 0 <= i < members.len() && members[i].0 == name {
        let i = choose|i: int| 0 <= i < members.len() && members[i].0 == name;
        members.update(i, (name, value))
    } else {
        members.push((name, value))
    }
}

/// The JSON object of a row: each column with the JSON of its value, in column order;
/// a missing value or a value without JSON gives an error.
pub open spec fn row_json(columns: Seq<Seq<char>>, values: Seq<ValueModel>) -> Result<Seq<(Seq<char>, JsonModel)>, Seq<char>>
    decreases columns.len(),
{
    if columns.len() == 0 {
        Ok(Seq::empty())
    } else {
        let k = columns.len() - 1;
        match row_json(columns.drop_last(), values) {
            Ok(members) => if k < values.len() {
                match value_json(values[k]) {
                    Ok(j) => Ok(set_member(members, columns[k], j)),
                    Err(e) => Err(e),
                }
            } else {
                Err(
                    "Missing value for column "@ + columns[k] + ": "@ + error_text(
                        ErrorModel::Execution(bounds_message(k as nat)),
                    ),
                )
            },
            Err(e) => Err(e),
        }
    }
}

/// The JSON of a result set: an array of one object per row; the first row that fails
/// gives its error.
pub open spec fn rows_json(columns: Seq<Seq<char>>, rows: Seq<Seq<ValueModel>>) -> Result<Seq<JsonModel>, Seq<char>>
    decreases rows.len(),
{
    if rows.len() == 0 {
        Ok(Seq::empty())
    } else {
        match rows_json(columns, rows.drop_last()) {
            Ok(objs) => match row_json(columns, rows.last()) {
                Ok(members) => Ok(objs.push(JsonModel::Object(members))),
                Err(e) => Err(e),
            },
            Err(e) => Err(e),
        }
    }
}

/// A JSON outcome as a model.
pub open spec fn json_result(r: Result<JsonValue, String>) -> Result<JsonModel, Seq<char>> {
    match r {
        Ok(j) => Ok(j@),
        Err(e) => Err(e@),
    }
}

/// The text of a double that is not finite.
fn nonfinite_label(b: u64) -> (r: &'static str)
    ensures
        r@ == nonfinite_text(b),
{
    if crate::float::float_is_nan(b) {
        "NaN"
    } else if b & 0x8000_0000_0000_0000u64 != 0 {
        "-inf"
    } else {
        "inf"
    }
}

/// Convert a field value to JSON.
pub fn field_value_to_json(value: &FieldValue) -> (r: Result<JsonValue, String>)
    ensures
        json_result(r) == value_json(value@),
    decreases value,
{
    match value {
        FieldValue::String(s) => Ok(JsonValue::Text(s.clone())),
        FieldValue::Integer(n) => Ok(JsonValue::Int(*n)),
        FieldValue::Float(b) => {
            if crate::float::float_is_finite(*b) {
                Ok(JsonValue::Float(*b))
            } else {
                Err(concat("Invalid float number: ", nonfinite_label(*b)))
            }
        },
        FieldValue::Boolean(b) => Ok(JsonValue::Bool(*b)),
        FieldValue::DateTime(d) => Ok(JsonValue::Text(d.text.clone())),
        FieldValue::List(items) => {
            let ghost ms = list_model(items@);
            proof {
                crate::display::lemma_list_model_index(items@);
            }
            let mut out: Vec<JsonValue> = Vec::new();
            let mut i: usize = 0;
            assert(ms.take(0) =~= Seq::<ValueModel>::empty());
            while i < items.len()
                invariant
                    i <= items.len(),
                    *value == FieldValue::List(*items),
                    ms == list_model(items@),
                    ms.len() == items.len(),
                    forall|j: int| 0 <= j < items.len() ==> #[trigger] ms[j] == items@[j]@,
                    out.len() == i,
                    forall|j: int| 0 <= j < i ==> #[trigger] out@[j]@ == items_json(ms.take(i as int))->Ok_0[j],
                    items_json(ms.take(i as int)) matches Ok(js) && js.len() == i,
                decreases items.len() - i,
            {
                assert(decreases_to!(*value => (*value)->List_0));
                assert(decreases_to!(*items => items@[i as int]));
                assert(ms.take(i + 1).drop_last() == ms.take(i as int));
                assert(ms.take(i + 1).last() == items@[i as int]@);
                let j = field_value_to_json(&items[i]);
                match j {
                    Ok(x) => {
                        out.push(x);
                    },
                    Err(e) => {
                        proof {
                            lemma_items_json_prefix(ms, i + 1);
                        }
                        return Err(e);
                    },
                }
                i = i + 1;
            }
            assert(ms.take(items.len() as int) == ms);
            proof {
                lemma_json_items_index(out@);
                assert(json_items(out@) =~= items_json(ms)->Ok_0);
            }
            Ok(JsonValue::Array(out))
        },
        FieldValue::Reference(r) => Ok(JsonValue::Text(r.to_text())),
        FieldValue::Currency { amount, currency } => {
            let mut members: Vec<(String, JsonValue)> = Vec::new();
            members.push((owned("amount"), JsonValue::Text(amount.clone())));
            members.push((owned("currency"), JsonValue::Text(currency.clone())));
            proof {
                lemma_json_members_index(members@);
                assert(json_members(members@) =~= seq![
                    ("amount"@, JsonModel::Text(amount@)),
                    ("currency"@, JsonModel::Text(currency@)),
                ]);
            }
            Ok(JsonValue::Object(members))
        },
        FieldValue::Path(p) => Ok(JsonValue::Text(p.clone())),
    }
}

proof fn lemma_items_json_prefix(items: Seq<ValueModel>, k: int)
    requires
        0 <= k <= items.len(),
        items_json(items.take(k)) is Err,
    ensures
        items_json(items) == items_json(items.take(k)),
    decreases items.len() - k,
{
    if k < items.len() {
        assert(items.drop_last().take(k) == items.take(k));
        lemma_items_json_prefix(items.drop_last(), k);
    } else {
        assert(items.take(k) == items);
    }
}

/// No two members of an object have the same name.
pub open spec fn distinct_names(members: Seq<(Seq<char>, JsonModel)>) -> bool {
    forall|i: int, j: int| 0 <= i < j < members.len() ==> (#[trigger] members[i]).0 != (#[trigger] members[j]).0
}

/// The JSON object of a row.
fn row_to_json(columns: &Vec<String>, row: &crate::result::QueryRow) -> (r: Result<Vec<(String, JsonValue)>, String>)
    ensures
        match r {
            Ok(ms) => row_json(names_view(columns@), row@) == Ok::<Seq<(Seq<char>, JsonModel)>, Seq<char>>(
                json_members(ms@),
            ),
            Err(e) => row_json(names_view(columns@), row@) == Err::<Seq<(Seq<char>, JsonModel)>, Seq<char>>(e@),
        },
{
    let ghost cols = names_view(columns@);
    let mut members: Vec<(String, JsonValue)> = Vec::new();
    let mut j: usize = 0;
    assert(cols.take(0) =~= Seq::<Seq<char>>::empty());
    proof {
        lemma_json_members_index(members@);
    }
    assert(json_members(members@) =~= Seq::<(Seq<char>, JsonModel)>::empty());
    while j < columns.len()
        invariant
            j <= columns.len(),
            cols == names_view(columns@),
            row_json(cols.take(j as int), row@) == Ok::<Seq<(Seq<char>, JsonModel)>, Seq<char>>(
                json_members(members@),
            ),
            distinct_names(json_members(members@)),
        decreases columns.len() - j,
    {
        assert(cols.take(j + 1).drop_last() == cols.take(j as int));
        assert(cols.take(j + 1).last() == columns@[j as int]@);
        assert(cols.take(j + 1)[j as int] == columns@[j as int]@);
        let value = match row.get(j) {
            Ok(v) => v,
            Err(e) => {
                let mut m = concat("Missing value for column ", columns[j].as_str());
                m.append(": ");
                m.append(e.to_message().as_str());
                proof {
                    lemma_row_json_prefix(cols, row@, j + 1);
                }
                return Err(m);
            },
        };
        let json = match field_value_to_json(value) {
            Ok(x) => x,
            Err(e) => {
                proof {
                    lemma_row_json_prefix(cols, row@, j + 1);
                }
                return Err(e);
            },
        };
        let ghost before = json_members(members@);
        let ghost name = columns@[j as int]@;
        proof {
            lemma_json_members_index(members@);
        }
        let mut k: usize = 0;
        while k < members.len() && !crate::text::str_equal(members[k].0.as_str(), columns[j].as_str())
            invariant
                k <= members.len(),
                j < columns.len(),
                name == columns@[j as int]@,
                before == json_members(members@),
                before.len() == members.len(),
                forall|x: int| 0 <= x < members.len() ==> #[trigger] before[x] == (members@[x].0@, members@[x].1@),
                forall|x: int| 0 <= x < k ==> (#[trigger] before[x]).0 != name,
            decreases members.len() - k,
        {
            k = k + 1;
        }
        let ghost jm = json@;
        if k < members.len() {
            members.set(k, (columns[j].clone(), json));
            proof {
                lemma_json_members_index(members@);
                assert(before[k as int].0 == name);
                assert(exists|i: int| 0 <= i < before.len() && before[i].0 == name);
                let c = choose|i: int| 0 <= i < before.len() && before[i].0 == name;
                if c != k {
                    if c < k {
                        assert(before[c].0 != name);
                    } else {
                        assert(before[k as int].0 != before[c].0);
                    }
                }
                assert(json_members(members@) =~= before.update(k as int, (name, jm)));
                assert(json_members(members@) == set_member(before, name, jm));
            }
        } else {
            members.push((columns[j].clone(), json));
            proof {
                lemma_json_members_index(members@);
                assert(!exists|i: int| 0 <= i < before.len() && before[i].0 == name);
                assert(json_members(members@) =~= before.push((name, jm)));
            }
        }
        proof {
            lemma_json_members_index(members@);
            let after = json_members(members@);
            assert forall|a: int, b: int| 0 <= a < b < after.len() implies (#[trigger] after[a]).0 != (
            #[trigger] after[b]).0 by {
                if b < before.len() && a != k && b != k {
                    assert(after[a] == before[a] && after[b] == before[b]);
                } else if b == before.len() {
                    assert(after[a] == before[a]);
                } else if a == k {
                    assert(after[b] == before[b]);
                    assert(before[a].0 == name);
                } else {
                    assert(after[a] == before[a]);
                    assert(before[b].0 == name);
                }
            }
        }
        j = j + 1;
    }
    assert(cols.take(columns.len() as int) == cols);
    Ok(members)
}

proof fn lemma_row_json_prefix(columns: Seq<Seq<char>>, values: Seq<ValueModel>, k: int)
    requires
        0 <= k <= columns.len(),
        row_json(columns.take(k), values) is Err,
    ensures
        row_json(columns, values) == row_json(columns.take(k), values),
    decreases columns.len() - k,
{
    if k < columns.len() {
        assert(columns.drop_last().take(k) == columns.take(k));
        lemma_row_json_prefix(columns.drop_last(), values, k);
    } else {
        assert(columns.take(k) == columns);
    }
}

proof fn lemma_rows_json_prefix(columns: Seq<Seq<char>>, rows: Seq<Seq<ValueModel>>, k: int)
    requires
        0 <= k <= rows.len(),
        rows_json(columns, rows.take(k)) is Err,
    ensures
        rows_json(columns, rows) == rows_json(columns, rows.take(k)),
    decreases rows.len() - k,
{
    if k < rows.len() {
        assert(rows.drop_last().take(k) == rows.take(k));
        lemma_rows_json_prefix(columns, rows.drop_last(), k);
    } else {
        assert(rows.take(k) == rows);
    }
}

/// The JSON of a result set: an array of one object per row.
pub open spec fn result_json(columns: Seq<Seq<char>>, rows: Seq<Seq<ValueModel>>) -> Result<JsonModel, Seq<char>> {
    match rows_json(columns, rows) {
        Ok(objs) => Ok(JsonModel::Array(objs)),
        Err(e) => Err(e),
    }
}

/// Convert a result set to JSON: an array of one object per row, each column with its
/// value.
pub fn result_set_to_json_value(result_set: &QueryResultSet) -> (r: Result<JsonValue, String>)
    ensures
        json_result(r) == result_json(result_set.column_names(), result_set.row_values()),
{
    let ghost cols = names_view(result_set.columns@);
    let ghost rv = result_set.row_values();
    let mut results: Vec<JsonValue> = Vec::new();
    let mut i: usize = 0;
    assert(rv.take(0) =~= Seq::<Seq<ValueModel>>::empty());
    proof {
        lemma_json_items_index(results@);
    }
    while i < result_set.rows.len()
        invariant
            i <= result_set.rows.len(),
            results@.len() == i,
            cols == names_view(result_set.columns@),
            rv == result_set.row_values(),
            rows_json(cols, rv.take(i as int)) == Ok::<Seq<JsonModel>, Seq<char>>(json_items(results@)),
        decreases result_set.rows.len() - i,
    {
        assert(rv.take(i + 1).drop_last() == rv.take(i as int));
        assert(rv.take(i + 1).last() == result_set.rows@[i as int]@);
        let members = match row_to_json(&result_set.columns, &result_set.rows[i]) {
            Ok(m) => m,
            Err(e) => {
                proof {
                    lemma_rows_json_prefix(cols, rv, i + 1);
                }
                return Err(e);
            },
        };
        let ghost old_results = results@;
        proof {
            lemma_json_items_index(old_results);
        }
        results.push(JsonValue::Object(members));
        proof {
            lemma_json_items_index(results@);
            assert(results@ == old_results.push(results@[i as int]));
            assert forall|x: int| 0 <= x < old_results.len() implies json_items(results@)[x] == json_items(
                old_results,
            )[x] by {
                assert(results@[x] == old_results[x]);
            }
            assert(json_items(results@) =~= json_items(old_results).push(results@[i as int]@));
        }
        i = i + 1;
    }
    assert(rv.take(result_set.rows.len() as int) == rv);
    Ok(JsonValue::Array(results))
}

/// The reply of the query tool when a query fails.
pub fn failure_reply(e: &QueryError) -> (r: String)
    ensures
        r@ == "Query execution failed: "@ + error_text(e@),
{
    concat("Query execution failed: ", e.to_message().as_str())
}

/// The resources that the server offers.
#[derive(Debug, Clone, Copy, PartialEq, Eq)]
pub enum Resource {
    /// The help text on the query language.
    QueryHelp,
    /// The entity types of the graph, as the result of `SHOW ENTITY TYPES`.
    Schema,
}

/// The resource that a URI names, if any.
pub open spec fn resource_named(uri: Seq<char>) -> Option<Resource> {
    if uri == "firm://query-help"@ {
        Some(Resource::QueryHelp)
    } else if uri == "firm://schema"@ {
        Some(Resource::Schema)
    } else {
        None
    }
}

/// The resource that a URI names; none for any other URI.
pub fn resource_of(uri: &str) -> (r: Option<Resource>)
    ensures
        r == resource_named(uri@),
{
    if str_equal(uri, "firm://query-help") {
        Some(Resource::QueryHelp)
    } else if str_equal(uri, "firm://schema") {
        Some(Resource::Schema)
    } else {
        None
    }
}

/// What the server does with the outcome of a query.
#[derive(Debug)]
pub enum Reply {
    /// The rows as JSON, to be encoded for the client.
    Rows(JsonValue),
    /// A result set that JSON cannot hold, with the reason.
    Unconvertible(String),
    /// The query's error.
    Refused(QueryError),
}

/// The reply to a query's outcome: its rows as JSON, the reason they cannot be, or its
/// error.
pub open spec fn replies(r: Reply, res: QueryResult<QueryResultSet>) -> bool {
    match res {
        Ok(set) => match result_json(set.column_names(), set.row_values()) {
            Ok(j) => r matches Reply::Rows(v) && v@ == j,
            Err(m) => r matches Reply::Unconvertible(s) && s@ == m,
        },
        Err(e) => r matches Reply::Refused(x) && x@ == e@,
    }
}

/// Runs a query against the graph and says how to reply to it.
pub fn query_reply(firm_ql: &FirmQl, query: &str) -> (r: Reply)
    ensures
        exists|res: QueryResult<QueryResultSet>|
            #![trigger text_answers(res, query@, firm_ql.graph.entities@)]
            text_answers(res, query@, firm_ql.graph.entities@) && replies(r, res),
{
    let res = firm_ql.query(query);
    let ghost kept = res;
    let r = match res {
        Ok(set) => match result_set_to_json_value(&set) {
            Ok(j) => Reply::Rows(j),
            Err(m) => Reply::Unconvertible(m),
        },
        Err(e) => Reply::Refused(e),
    };
    assert(text_answers(kept, query@, firm_ql.graph.entities@) && replies(r, kept));
    r
}

} // verus!
