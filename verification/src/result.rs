use vstd::prelude::*;
use crate::error::{concat, ErrorModel, QueryError, QueryResult};
use crate::graph::lemma_list_model_pointwise;
use crate::text::{digits, str_equal, usize_to_text};
use crate::value::{
    b_order, bool_order, f_order, float_order, i64_order, int_order, str_order, text_order,
    FieldValue, Order, ValueModel,
};

verus! {

/// A single row in a query result.
#[derive(Debug)]
pub struct QueryRow {
    pub values: Vec<FieldValue>,
}

/// The models of a row's values.
pub open spec fn values_view(v: Seq<FieldValue>) -> Seq<ValueModel> {
    v.map_values(|x: FieldValue| x@)
}

impl View for QueryRow {
    type V = Seq<ValueModel>;

    open spec fn view(&self) -> Seq<ValueModel> {
        values_view(self.values@)
    }
}

/// Metadata about query execution.
#[derive(Debug, Clone)]
pub struct QueryMetadata {
    /// Execution time in milliseconds
    pub execution_time_ms: Option<u64>,
    /// Number of entities scanned
    pub entities_scanned: Option<usize>,
    /// Query plan or execution details
    pub execution_plan: Option<String>,
    /// Whether the result was truncated
    pub truncated: bool,
}

/// Two metadata records hold the same: the same time, count and truncation, and plans
/// of the same text (or none in both).
pub open spec fn same_metadata(a: QueryMetadata, b: QueryMetadata) -> bool {
    &&& a.execution_time_ms == b.execution_time_ms
    &&& a.entities_scanned == b.entities_scanned
    &&& a.truncated == b.truncated
    &&& match (a.execution_plan, b.execution_plan) {
        (Some(p), Some(q)) => p@ == q@,
        (None, None) => true,
        _ => false,
    }
}

/// Metadata with nothing recorded.
pub open spec fn empty_metadata(m: QueryMetadata) -> bool {
    &&& m.execution_time_ms is None
    &&& m.entities_scanned is None
    &&& m.execution_plan is None
    &&& !m.truncated
}

impl QueryMetadata {
    /// Metadata with nothing recorded.
    pub fn empty() -> (r: QueryMetadata)
        ensures
            r.execution_time_ms is None,
            r.entities_scanned is None,
            r.execution_plan is None,
            !r.truncated,
    {
        QueryMetadata {
            execution_time_ms: None,
            entities_scanned: None,
            execution_plan: None,
            truncated: false,
        }
    }

    /// A copy of the metadata.
    pub fn duplicate(&self) -> (r: QueryMetadata)
        ensures
            r.execution_time_ms == self.execution_time_ms,
            r.entities_scanned == self.entities_scanned,
            r.execution_plan matches Some(p) ==> self.execution_plan matches Some(q) && p@ == q@,
            r.execution_plan is None <==> self.execution_plan is None,
            r.truncated == self.truncated,
    {
        QueryMetadata {
            execution_time_ms: self.execution_time_ms,
            entities_scanned: self.entities_scanned,
            execution_plan: match &self.execution_plan {
                Some(p) => Some(p.clone()),
                None => None,
            },
            truncated: self.truncated,
        }
    }
}

impl Default for QueryMetadata {
    fn default() -> (r: QueryMetadata)
        ensures
            r.execution_time_ms is None,
            r.entities_scanned is None,
            r.execution_plan is None,
            !r.truncated,
    {
        QueryMetadata::empty()
    }
}

/// Represents the result of a query execution.
#[derive(Debug)]
pub struct QueryResultSet {
    /// Column names in the result set
    pub columns: Vec<String>,
    /// Rows of data
    pub rows: Vec<QueryRow>,
    /// Metadata about the query execution
    pub metadata: QueryMetadata,
}

/// The texts of a list of strings.
pub open spec fn names_view(v: Seq<String>) -> Seq<Seq<char>> {
    v.map_values(|s: String| s@)
}

/// The models of a list of rows.
pub open spec fn rows_view(v: Seq<QueryRow>) -> Seq<Seq<ValueModel>> {
    v.map_values(|r: QueryRow| r@)
}

/// The position of the first column with the given name.
pub open spec fn column_position(columns: Seq<Seq<char>>, name: Seq<char>) -> Option<int>
    decreases columns.len(),
{
    if columns.len() == 0 {
        None
    } else if columns[0] == name {
        Some(0)
    } else {
        match column_position(columns.drop_first(), name) {
            Some(i) => Some(i + 1),
            None => None,
        }
    }
}

/// The column-to-value map of a row: each column with the value at its position, over
/// as many columns as there are values, a later column of the same name winning.
pub open spec fn row_map(columns: Seq<Seq<char>>, values: Seq<ValueModel>) -> Map<Seq<char>, ValueModel>
    decreases columns.len(),
{
    let n = if columns.len() < values.len() {
        columns.len()
    } else {
        values.len()
    };
    if n == 0 {
        Map::empty()
    } else {
        row_map(columns.take(n - 1), values.take(n - 1)).insert(columns[n - 1], values[n - 1])
    }
}

/// The message of a row whose width does not match the columns.
pub open spec fn width_message(values: nat, columns: nat) -> Seq<char> {
    "Row has "@ + digits(values) + " values but expected "@ + digits(columns) + " columns"@
}

/// The message of a column index past the end of a row.
pub open spec fn bounds_message(index: nat) -> Seq<char> {
    "Column index "@ + digits(index) + " out of bounds"@
}

impl QueryResultSet {
    /// The column names.
    pub open spec fn column_names(&self) -> Seq<Seq<char>> {
        names_view(self.columns@)
    }

    /// The rows' values.
    pub open spec fn row_values(&self) -> Seq<Seq<ValueModel>> {
        rows_view(self.rows@)
    }

    /// Every row has one value per column.
    pub open spec fn well_formed(&self) -> bool {
        forall|i: int| 0 <= i < self.rows@.len() ==> #[trigger] self.rows@[i].values@.len()
            == self.columns@.len()
    }

    /// Create a new empty result set.
    pub fn new(columns: Vec<String>) -> (r: Self)
        ensures
            r.columns == columns,
            r.rows@.len() == 0,
            r.metadata.execution_time_ms is None,
            r.metadata.entities_scanned is None,
            r.metadata.execution_plan is None,
            !r.metadata.truncated,
            r.well_formed(),
    {
        QueryResultSet { columns, rows: Vec::new(), metadata: QueryMetadata::empty() }
    }

    /// Create a new result set with rows.
    pub fn with_rows(columns: Vec<String>, rows: Vec<QueryRow>) -> (r: Self)
        ensures
            r.columns == columns,
            r.rows == rows,
            r.metadata.execution_time_ms is None,
            r.metadata.entities_scanned is None,
            r.metadata.execution_plan is None,
            !r.metadata.truncated,
    {
        QueryResultSet { columns, rows, metadata: QueryMetadata::empty() }
    }

    /// Add a row to the result set; refused when the row's width differs from the columns'.
    pub fn add_row(&mut self, row: QueryRow) -> (r: QueryResult<()>)
        ensures
            final(self).columns == old(self).columns,
            final(self).metadata == old(self).metadata,
            row.values@.len() == old(self).columns@.len() ==> (r is Ok && final(self).rows@ == old(
                self,
            ).rows@.push(row)),
            row.values@.len() != old(self).columns@.len() ==> (r matches Err(e) && e@
                == ErrorModel::Execution(
                width_message(row.values@.len(), old(self).columns@.len()),
            ) && final(self).rows@ == old(self).rows@),
            old(self).well_formed() ==> final(self).well_formed(),
    {
        if row.values.len() != self.columns.len() {
            let mut m = concat("Row has ", usize_to_text(row.values.len()).as_str());
            vstd::string::StringExecFns::append(&mut m, " values but expected ");
            vstd::string::StringExecFns::append(&mut m, usize_to_text(self.columns.len()).as_str());
            vstd::string::StringExecFns::append(&mut m, " columns");
            return Err(QueryError::execution(m.as_str()));
        }
        self.rows.push(row);
        Ok(())
    }

    /// Get the number of rows in the result set.
    pub fn len(&self) -> (r: usize)
        ensures
            r == self.rows@.len(),
    {
        self.rows.len()
    }

    /// Check if the result set is empty.
    pub fn is_empty(&self) -> (r: bool)
        ensures
            r == (self.rows@.len() == 0),
    {
        self.rows.len() == 0
    }

    /// Get a column index by name: the first column of that name.
    pub fn column_index(&self, column_name: &str) -> (r: QueryResult<usize>)
        ensures
            column_position(self.column_names(), column_name@) matches Some(i) ==> (r matches Ok(
                k,
            ) && k == i),
            r matches Ok(k) ==> k < self.columns@.len(),
            column_position(self.column_names(), column_name@) is None ==> (r matches Err(e) && e@
                == ErrorModel::ColumnNotFound(column_name@)),
    {
        let ghost cs = self.column_names();
        let mut i: usize = 0;
        assert(cs.skip(0) == cs);
        while i < self.columns.len()
            invariant
                i <= self.columns.len(),
                cs == self.column_names(),
                column_position(cs.skip(i as int), column_name@) matches Some(k)
                    ==> column_position(cs, column_name@) == Some(k + i),
                column_position(cs.skip(i as int), column_name@) is None ==> column_position(
                    cs,
                    column_name@,
                ) is None,
            decreases self.columns.len() - i,
        {
            assert(cs.skip(i as int)[0] == cs[i as int]);
            assert(cs.skip(i as int).drop_first() == cs.skip(i + 1));
            if str_equal(self.columns[i].as_str(), column_name) {
                return Ok(i);
            }
            i = i + 1;
        }
        assert(cs.skip(i as int).len() == 0);
        Err(QueryError::column_not_found(column_name))
    }

    /// Get all values for a specific column.
    pub fn column_values(&self, column_name: &str) -> (r: QueryResult<Vec<&FieldValue>>)
        requires
            self.well_formed(),
        ensures
            column_position(self.column_names(), column_name@) matches Some(c) ==> (r matches Ok(
                vs,
            ) && vs@.len() == self.rows@.len() && forall|i: int|
                0 <= i < vs@.len() ==> #[trigger] vs@[i]@ == self.rows@[i].values@[c]@),
            column_position(self.column_names(), column_name@) is None ==> (r matches Err(e) && e@
                == ErrorModel::ColumnNotFound(column_name@)),
    {
        let index = self.column_index(column_name)?;
        let mut vs: Vec<&FieldValue> = Vec::new();
        let mut i: usize = 0;
        while i < self.rows.len()
            invariant
                i <= self.rows.len(),
                self.well_formed(),
                index < self.columns@.len(),
                vs@.len() == i,
                forall|j: int| 0 <= j < i ==> #[trigger] vs@[j]@ == self.rows@[j].values@[index as int]@,
            decreases self.rows.len() - i,
        {
            assert(self.rows@[i as int].values@.len() == self.columns@.len());
            vs.push(&self.rows[i].values[index]);
            i = i + 1;
        }
        Ok(vs)
    }

    /// Limit the number of rows returned: at most `count` rows from position `offset`
    /// (0 when absent), with the metadata kept; none, with empty metadata, when the offset
    /// is past the end.
    pub fn limit(&self, count: usize, offset: Option<usize>) -> (r: Self)
        requires
            offset matches Some(o) ==> o + count <= usize::MAX,
        ensures
            r.column_names() == self.column_names(),
            ({
                let start = match offset {
                    Some(o) => o as int,
                    None => 0,
                };
                let end = if start + count < self.rows@.len() {
                    start + count
                } else {
                    self.rows@.len() as int
                };
                if start >= self.rows@.len() {
                    r.row_values() == Seq::<Seq<ValueModel>>::empty() && empty_metadata(r.metadata)
                } else {
                    r.row_values() == self.row_values().subrange(start, end) && same_metadata(
                        r.metadata,
                        self.metadata,
                    )
                }
            }),
            self.well_formed() ==> r.well_formed(),
    {
        let start = match offset {
            Some(o) => o,
            None => 0,
        };
        let end = if start + count < self.rows.len() {
            start + count
        } else {
            self.rows.len()
        };
        let columns = clone_names(&self.columns);
        if start >= self.rows.len() {
            return QueryResultSet { columns, rows: Vec::new(), metadata: QueryMetadata::empty() };
        }
        let mut rows: Vec<QueryRow> = Vec::new();
        let mut i: usize = start;
        while i < end
            invariant
                start <= i <= end,
                end <= self.rows.len(),
                rows@.len() == i - start,
                forall|j: int| 0 <= j < rows@.len() ==> #[trigger] rows@[j]@ == self.rows@[start + j]@
                    && rows@[j].values@.len() == self.rows@[start + j].values@.len(),
            decreases end - i,
        {
            rows.push(self.rows[i].duplicate());
            i = i + 1;
        }
        let r = QueryResultSet { columns, rows, metadata: self.metadata.duplicate() };
        assert(r.row_values() =~= self.row_values().subrange(start as int, end as int));
        assert(self.well_formed() ==> r.well_formed()) by {
            if self.well_formed() {
                assert forall|j: int| 0 <= j < r.rows@.len() implies #[trigger] r.rows@[j].values@.len()
                    == r.columns@.len() by {
                    assert(r.rows@[j]@ == self.rows@[start + j]@);
                    assert(self.rows@[start + j].values@.len() == self.columns@.len());
                }
            }
        }
        r
    }

    /// The rows for which the predicate holds, in order; columns and metadata are kept.
    pub fn filter<F: Fn(&QueryRow) -> bool>(&self, predicate: F) -> (r: Self)
        requires
            forall|i: int| 0 <= i < self.rows@.len() ==> call_requires(predicate, (&self.rows@[i],)),
        ensures
            r.column_names() == self.column_names(),
            same_metadata(r.metadata, self.metadata),
            exists|keep: Seq<bool>|
                #![trigger keep.len()]
                keep.len() == self.rows@.len() && (forall|i: int|
                    0 <= i < keep.len() ==> call_ensures(predicate, (&self.rows@[i],), #[trigger] keep[i]))
                    && r.row_values() == kept(self.row_values(), keep),
    {
        let mut rows: Vec<QueryRow> = Vec::new();
        let ghost mut keep: Seq<bool> = Seq::empty();
        let mut i: usize = 0;
        while i < self.rows.len()
            invariant
                i <= self.rows.len(),
                keep.len() == i,
                forall|j: int| 0 <= j < self.rows@.len() ==> call_requires(predicate, (&self.rows@[j],)),
                forall|j: int| 0 <= j < i ==> call_ensures(predicate, (&self.rows@[j],), #[trigger] keep[j]),
                rows_view(rows@) == kept(self.row_values().take(i as int), keep),
            decreases self.rows.len() - i,
        {
            let b = predicate(&self.rows[i]);
            assert(self.row_values().take(i + 1).drop_last() == self.row_values().take(i as int));
            assert(self.row_values().take(i + 1).last() == self.rows@[i as int]@);
            let ghost before = rows@;
            if b {
                let d = self.rows[i].duplicate();
                rows.push(d);
                assert(rows_view(rows@) =~= rows_view(before).push(d@));
            }
            proof {
                let old_keep = keep;
                keep = keep.push(b);
                assert(keep.take(i as int) =~= old_keep);
            }
            i = i + 1;
        }
        assert(self.row_values().take(self.rows@.len() as int) == self.row_values());
        QueryResultSet { columns: clone_names(&self.columns), rows, metadata: self.metadata.duplicate() }
    }
}

/// The items of a sequence that are kept.
pub open spec fn kept<T>(items: Seq<T>, keep: Seq<bool>) -> Seq<T>
    decreases items.len(),
{
    if items.len() == 0 || keep.len() < items.len() {
        Seq::empty()
    } else {
        let rest = kept(items.drop_last(), keep.take(items.len() - 1));
        if keep[items.len() - 1] {
            rest.push(items.last())
        } else {
            rest
        }
    }
}

/// A copy of a list of names.
pub fn clone_names(v: &Vec<String>) -> (r: Vec<String>)
    ensures
        r@.len() == v@.len(),
        forall|i: int| 0 <= i < v@.len() ==> #[trigger] r@[i]@ == v@[i]@,
        names_view(r@) == names_view(v@),
{
    let mut r: Vec<String> = Vec::new();
    let mut i: usize = 0;
    while i < v.len()
        invariant
            i <= v.len(),
            r@.len() == i,
            forall|j: int| 0 <= j < i ==> #[trigger] r@[j]@ == v@[j]@,
        decreases v.len() - i,
    {
        r.push(v[i].clone());
        i = i + 1;
    }
    assert(names_view(r@) =~= names_view(v@));
    r
}

impl QueryRow {
    /// Create a new row with the given values.
    pub fn new(values: Vec<FieldValue>) -> (r: Self)
        ensures
            r.values == values,
    {
        QueryRow { values }
    }

    /// A copy of the row.
    pub fn duplicate(&self) -> (r: Self)
        ensures
            r@ == self@,
            r.values@.len() == self.values@.len(),
    {
        let mut v: Vec<FieldValue> = Vec::new();
        let mut i: usize = 0;
        while i < self.values.len()
            invariant
                i <= self.values.len(),
                v@.len() == i,
                forall|j: int| 0 <= j < i ==> #[trigger] v@[j]@ == self.values@[j]@,
            decreases self.values.len() - i,
        {
            v.push(self.values[i].duplicate());
            i = i + 1;
        }
        let r = QueryRow { values: v };
        assert(r@ =~= self@);
        r
    }

    /// Get a value by column index.
    pub fn get(&self, index: usize) -> (r: QueryResult<&FieldValue>)
        ensures
            index < self.values@.len() ==> (r matches Ok(v) && v == self.values@[index as int]),
            index >= self.values@.len() ==> (r matches Err(e) && e@ == ErrorModel::Execution(
                bounds_message(index as nat),
            )),
    {
        if index < self.values.len() {
            Ok(&self.values[index])
        } else {
            let mut m = concat("Column index ", usize_to_text(index).as_str());
            vstd::string::StringExecFns::append(&mut m, " out of bounds");
            Err(QueryError::execution(m.as_str()))
        }
    }

    /// Get a value by column name (requires the result set for column mapping).
    pub fn get_by_name(&self, result_set: &QueryResultSet, column_name: &str) -> (r: QueryResult<&FieldValue>)
        ensures
            match column_position(result_set.column_names(), column_name@) {
                Some(i) => if i < self.values@.len() {
                    r matches Ok(v) && v == self.values@[i]
                } else {
                    r matches Err(e) && e@ == ErrorModel::Execution(bounds_message(i as nat))
                },
                None => r matches Err(e) && e@ == ErrorModel::ColumnNotFound(column_name@),
            },
    {
        let index = result_set.column_index(column_name)?;
        self.get(index)
    }
}

} // verus!

verus! {

/// The precedence of a value's kind when values of different kinds are sorted: texts,
/// then integers, doubles, booleans, points in time, and everything else last.
pub open spec fn kind_rank(v: ValueModel) -> int {
    match v {
        ValueModel::Str(_) => 0,
        ValueModel::Int(_) => 1,
        ValueModel::Float(_) => 2,
        ValueModel::Bool(_) => 3,
        ValueModel::DateTime(..) => 4,
        _ => 5,
    }
}

/// An order that has none is taken as equal.
pub open spec fn or_equal(o: Option<crate::value::Order>) -> crate::value::Order {
    match o {
        Some(x) => x,
        None => crate::value::Order::Equal,
    }
}

/// How two values are ordered when a result set is sorted: values of one kind by value
/// (points in time by instant), integers and doubles as doubles, NaN as equal, and values
/// of different kinds by the precedence of their kinds.
pub open spec fn sort_order(a: ValueModel, b: ValueModel) -> crate::value::Order {
    match (a, b) {
        (ValueModel::Str(x), ValueModel::Str(y)) => text_order(x, y),
        (ValueModel::Int(x), ValueModel::Int(y)) => int_order(x as int, y as int),
        (ValueModel::Float(x), ValueModel::Float(y)) => or_equal(float_order(x, y)),
        (ValueModel::Bool(x), ValueModel::Bool(y)) => bool_order(x, y),
        (ValueModel::DateTime(s1, n1, _), ValueModel::DateTime(s2, n2, _)) => if s1 == s2 {
            int_order(n1 as int, n2 as int)
        } else {
            int_order(s1 as int, s2 as int)
        },
        (ValueModel::Int(x), ValueModel::Float(y)) => or_equal(
            float_order(crate::float::ieee_from_int(x), y),
        ),
        (ValueModel::Float(x), ValueModel::Int(y)) => or_equal(
            float_order(x, crate::float::ieee_from_int(y)),
        ),
        _ => int_order(kind_rank(a), kind_rank(b)),
    }
}

/// Compare two values for sorting purposes.
pub fn compare_field_values(a: &FieldValue, b: &FieldValue) -> (r: crate::value::Order)
    ensures
        r == sort_order(a@, b@),
{
    match (a, b) {
        (FieldValue::String(x), FieldValue::String(y)) => str_order(x.as_str(), y.as_str()),
        (FieldValue::Integer(x), FieldValue::Integer(y)) => i64_order(*x, *y),
        (FieldValue::Float(x), FieldValue::Float(y)) => match f_order(*x, *y) {
            Some(o) => o,
            None => Order::Equal,
        },
        (FieldValue::Boolean(x), FieldValue::Boolean(y)) => b_order(*x, *y),
        (FieldValue::DateTime(x), FieldValue::DateTime(y)) => {
            if x.seconds == y.seconds {
                i64_order(x.nanos as i64, y.nanos as i64)
            } else {
                i64_order(x.seconds, y.seconds)
            }
        },
        (FieldValue::Integer(x), FieldValue::Float(y)) => match f_order(
            crate::float::float_from_int(*x),
            *y,
        ) {
            Some(o) => o,
            None => Order::Equal,
        },
        (FieldValue::Float(x), FieldValue::Integer(y)) => match f_order(
            *x,
            crate::float::float_from_int(*y),
        ) {
            Some(o) => o,
            None => Order::Equal,
        },
        _ => i64_order(kind_rank_of(a), kind_rank_of(b)),
    }
}

/// The precedence of a value's kind.
fn kind_rank_of(v: &FieldValue) -> (r: i64)
    ensures
        r == kind_rank(v@),
{
    match v {
        FieldValue::String(_) => 0,
        FieldValue::Integer(_) => 1,
        FieldValue::Float(_) => 2,
        FieldValue::Boolean(_) => 3,
        FieldValue::DateTime(_) => 4,
        _ => 5,
    }
}

/// The order of two lists of sort keys, each ascending or descending, from key `k` on:
/// the first key on which they differ decides.
pub open spec fn keys_order(a: Seq<ValueModel>, b: Seq<ValueModel>, asc: Seq<bool>, k: int) -> Order
    decreases asc.len() - k,
{
    if k < 0 || k >= asc.len() || k >= a.len() || k >= b.len() {
        Order::Equal
    } else {
        let c = sort_order(a[k], b[k]);
        let d = if asc[k] {
            c
        } else {
            c.flip()
        };
        if d != Order::Equal {
            d
        } else {
            keys_order(a, b, asc, k + 1)
        }
    }
}

/// The values of a row at the given columns.
pub open spec fn project(row: Seq<ValueModel>, cols: Seq<int>) -> Seq<ValueModel> {
    cols.map_values(|c: int| row[c])
}

/// The order of two rows by the values at the given columns, each ascending or descending.
pub open spec fn rows_order(a: Seq<ValueModel>, b: Seq<ValueModel>, cols: Seq<int>, asc: Seq<bool>) -> Order {
    keys_order(project(a, cols), project(b, cols), asc, 0)
}

/// Rows `after` are rows `before` rearranged so that neighbours are in order by `cols`,
/// neighbours in a tie keeping the order they had in `before`.
pub open spec fn sorted_rearrangement(
    before: Seq<Seq<ValueModel>>,
    after: Seq<Seq<ValueModel>>,
    cols: Seq<int>,
    asc: Seq<bool>,
) -> bool {
    exists|p: Seq<usize>|
        #![trigger crate::sort::is_permutation(p, before.len())]
        crate::sort::is_permutation(p, before.len()) && after.len() == before.len() && (forall|i: int|
            0 <= i < after.len() ==> #[trigger] after[i] == before[p[i] as int]) && (forall|k: int|
            #![trigger p[k], p[k + 1]]
            0 <= k < p.len() - 1 ==> {
                &&& rows_order(after[k], after[k + 1], cols, asc) != crate::value::Order::Greater
                &&& (rows_order(after[k], after[k + 1], cols, asc)
                    == crate::value::Order::Equal ==> p[k] < p[k + 1])
            })
}

/// Sorting compares the other way round in the opposite order.
pub proof fn lemma_sort_order_flip(a: ValueModel, b: ValueModel)
    ensures
        sort_order(b, a) == sort_order(a, b).flip(),
{
    match (a, b) {
        (ValueModel::Str(x), ValueModel::Str(y)) => crate::value::lemma_text_order_flip(x, y),
        _ => {},
    }
}

/// Lists of sort keys compare the other way round in the opposite order.
pub proof fn lemma_keys_order_flip(a: Seq<ValueModel>, b: Seq<ValueModel>, asc: Seq<bool>, k: int)
    ensures
        keys_order(b, a, asc, k) == keys_order(a, b, asc, k).flip(),
    decreases asc.len() - k,
{
    if 0 <= k < asc.len() && k < a.len() && k < b.len() {
        lemma_sort_order_flip(a[k], b[k]);
        lemma_keys_order_flip(a, b, asc, k + 1);
    }
}

/// The values of a row at the sort columns.
pub struct SortRow {
    pub values: Vec<FieldValue>,
}

impl crate::sort::SortKey for SortRow {
    type Context = Vec<bool>;

    open spec fn key_order(&self, other: &Self, ctx: &Vec<bool>) -> Order {
        keys_order(values_view(self.values@), values_view(other.values@), ctx@, 0)
    }

    proof fn lemma_key_order_flip(&self, other: &Self, ctx: &Vec<bool>) {
        lemma_keys_order_flip(values_view(self.values@), values_view(other.values@), ctx@, 0);
    }

    fn order_with(&self, other: &Self, ctx: &Vec<bool>) -> (r: Order) {
        let mut k: usize = 0;
        let ghost a = values_view(self.values@);
        let ghost b = values_view(other.values@);
        while k < ctx.len() && k < self.values.len() && k < other.values.len()
            invariant
                a == values_view(self.values@),
                b == values_view(other.values@),
                keys_order(a, b, ctx@, k as int) == keys_order(a, b, ctx@, 0),
            decreases ctx.len() - k,
        {
            let o = compare_field_values(&self.values[k], &other.values[k]);
            let d = if ctx[k] { o } else { o.reverse() };
            if !d.is_equal() {
                return d;
            }
            k = k + 1;
        }
        Order::Equal
    }
}

/// The positions of the columns named by sort keys, or the name of the first key whose
/// column is missing.
pub open spec fn key_columns(columns: Seq<Seq<char>>, names: Seq<Seq<char>>) -> Result<Seq<int>, Seq<char>>
    decreases names.len(),
{
    if names.len() == 0 {
        Ok(Seq::empty())
    } else {
        match key_columns(columns, names.drop_last()) {
            Ok(cols) => match column_position(columns, names.last()) {
                Some(c) => Ok(cols.push(c)),
                None => Err(names.last()),
            },
            Err(n) => Err(n),
        }
    }
}

/// Column positions as integers.
pub open spec fn cols_view(cols: Seq<usize>) -> Seq<int> {
    cols.map_values(|c: usize| c as int)
}

/// The names of sort keys.
pub open spec fn key_names(keys: Seq<(String, bool)>) -> Seq<Seq<char>> {
    keys.map_values(|k: (String, bool)| k.0@)
}

/// The directions of sort keys.
pub open spec fn key_directions(keys: Seq<(String, bool)>) -> Seq<bool> {
    keys.map_values(|k: (String, bool)| k.1)
}

impl QueryResultSet {
    /// Rearranges the rows by the values at the given columns (ascending where `asc`).
    fn sort_rows_at(&mut self, cols: &Vec<usize>, asc: &Vec<bool>)
        requires
            old(self).well_formed(),
            forall|i: int| 0 <= i < cols@.len() ==> #[trigger] cols@[i] < old(self).columns@.len(),
        ensures
            final(self).columns == old(self).columns,
            final(self).metadata == old(self).metadata,
            final(self).well_formed(),
            sorted_rearrangement(
                old(self).row_values(),
                final(self).row_values(),
                cols_view(cols@),
                asc@,
            ),
    {
        let ghost before = self.row_values();
        let ghost cs = cols_view(cols@);
        let mut keys: Vec<SortRow> = Vec::new();
        let mut i: usize = 0;
        while i < self.rows.len()
            invariant
                i <= self.rows.len(),
                self.well_formed(),
                before == self.row_values(),
                cs == cols_view(cols@),
                forall|t: int| 0 <= t < cols@.len() ==> #[trigger] cols@[t] < self.columns@.len(),
                keys@.len() == i,
                forall|j: int| 0 <= j < i ==> #[trigger] values_view(keys@[j].values@) == project(before[j], cs),
            decreases self.rows.len() - i,
        {
            let mut vs: Vec<FieldValue> = Vec::new();
            let mut k: usize = 0;
            assert(self.rows@[i as int].values@.len() == self.columns@.len());
            while k < cols.len()
                invariant
                    k <= cols.len(),
                    i < self.rows.len(),
                    self.rows@[i as int].values@.len() == self.columns@.len(),
                    forall|t: int| 0 <= t < cols@.len() ==> #[trigger] cols@[t] < self.columns@.len(),
                    vs@.len() == k,
                    forall|t: int| 0 <= t < k ==> #[trigger] vs@[t]@ == self.rows@[i as int].values@[cols@[t] as int]@,
                decreases cols.len() - k,
            {
                vs.push(self.rows[i].values[cols[k]].duplicate());
                k = k + 1;
            }
            assert(values_view(vs@) =~= project(before[i as int], cs));
            keys.push(SortRow { values: vs });
            i = i + 1;
        }
        let p = crate::sort::stable_order(&keys, asc);
        let mut rows: Vec<QueryRow> = Vec::new();
        let mut j: usize = 0;
        while j < p.len()
            invariant
                j <= p.len(),
                crate::sort::is_permutation(p@, before.len()),
                before == self.row_values(),
                self.well_formed(),
                rows@.len() == j,
                forall|t: int| 0 <= t < j ==> #[trigger] rows@[t]@ == before[p@[t] as int]
                    && rows@[t].values@.len() == self.columns@.len(),
            decreases p.len() - j,
        {
            assert(p@[j as int] < before.len());
            assert(self.rows@[p@[j as int] as int].values@.len() == self.columns@.len());
            rows.push(self.rows[p[j]].duplicate());
            j = j + 1;
        }
        self.rows = rows;
        proof {
            let after = self.row_values();
            assert(after.len() == before.len());
            assert forall|t: int| 0 <= t < after.len() implies #[trigger] after[t] == before[p@[t] as int] by {
                assert(self.rows@[t]@ == before[p@[t] as int]);
            }
            assert forall|k: int|
                #![trigger p@[k], p@[k + 1]]
                0 <= k < p@.len() - 1 implies {
                    &&& rows_order(after[k], after[k + 1], cs, asc@) != Order::Greater
                    &&& (rows_order(after[k], after[k + 1], cs, asc@) == Order::Equal ==> p@[k] < p@[k + 1])
                } by {
                assert(self.rows@[k]@ == before[p@[k] as int]);
                assert(self.rows@[k + 1]@ == before[p@[k + 1] as int]);
                assert(values_view(keys@[p@[k] as int].values@) == project(before[p@[k] as int], cs));
                assert(values_view(keys@[p@[k + 1] as int].values@) == project(before[p@[k + 1] as int], cs));
            }
            assert forall|t: int| 0 <= t < self.rows@.len() implies #[trigger] self.rows@[t].values@.len()
                == self.columns@.len() by {
                assert(self.rows@[t]@ == before[p@[t] as int]);
            }
            assert(crate::sort::is_permutation(p@, before.len()));
        }
    }

    /// Sort rows by a column, ascending or descending; refused when there is no such
    /// column. Ties keep their order.
    pub fn sort_by_column(&mut self, column_name: &str, ascending: bool) -> (r: QueryResult<()>)
        requires
            old(self).well_formed(),
        ensures
            final(self).columns == old(self).columns,
            final(self).metadata == old(self).metadata,
            final(self).well_formed(),
            match column_position(old(self).column_names(), column_name@) {
                Some(c) => r is Ok && sorted_rearrangement(
                    old(self).row_values(),
                    final(self).row_values(),
                    seq![c],
                    seq![ascending],
                ),
                None => (r matches Err(e) && e@ == ErrorModel::ColumnNotFound(column_name@))
                    && final(self).rows == old(self).rows,
            },
    {
        let index = self.column_index(column_name)?;
        let cols = vec![index];
        let asc = vec![ascending];
        assert(cols_view(cols@) =~= seq![index as int]);
        assert(asc@ =~= seq![ascending]);
        self.sort_rows_at(&cols, &asc);
        Ok(())
    }

    /// Sort rows by multiple columns with their respective sort directions; refused when
    /// a key names no column (the first such key is reported). Ties keep their order.
    pub fn sort_by_columns(&mut self, sort_keys: &[(String, bool)]) -> (r: QueryResult<()>)
        requires
            old(self).well_formed(),
        ensures
            final(self).columns == old(self).columns,
            final(self).metadata == old(self).metadata,
            final(self).well_formed(),
            sort_keys@.len() == 0 ==> r is Ok && final(self).rows == old(self).rows,
            sort_keys@.len() > 0 ==> match key_columns(old(self).column_names(), key_names(sort_keys@)) {
                Ok(cols) => r is Ok && sorted_rearrangement(
                    old(self).row_values(),
                    final(self).row_values(),
                    cols,
                    key_directions(sort_keys@),
                ),
                Err(name) => (r matches Err(e) && e@ == ErrorModel::ColumnNotFound(name))
                    && final(self).rows == old(self).rows,
            },
    {
        if sort_keys.len() == 0 {
            return Ok(());
        }
        let ghost names = key_names(sort_keys@);
        let mut cols: Vec<usize> = Vec::new();
        let mut asc: Vec<bool> = Vec::new();
        let mut i: usize = 0;
        assert(names.take(0) =~= Seq::<Seq<char>>::empty());
        assert(cols_view(cols@) =~= Seq::<int>::empty());
        assert(key_directions(sort_keys@).take(0) =~= Seq::<bool>::empty());
        while i < sort_keys.len()
            invariant
                i <= sort_keys@.len(),
                self.well_formed(),
                names == key_names(sort_keys@),
                key_columns(self.column_names(), names.take(i as int)) == Ok::<Seq<int>, Seq<char>>(cols_view(cols@)),
                asc@ == key_directions(sort_keys@).take(i as int),
                forall|t: int| 0 <= t < cols@.len() ==> #[trigger] cols@[t] < self.columns@.len(),
            decreases sort_keys@.len() - i,
        {
            assert(names.take(i + 1).drop_last() == names.take(i as int));
            assert(names.take(i + 1).last() == sort_keys@[i as int].0@);
            let index = match self.column_index(sort_keys[i].0.as_str()) {
                Ok(c) => c,
                Err(e) => {
                    proof {
                        let rest = names.skip(i + 1);
                        lemma_key_columns_error(self.column_names(), names.take(i + 1), rest);
                        assert(names.take(i + 1) + rest == names);
                    }
                    return Err(e);
                },
            };
            let ghost old_cols = cols_view(cols@);
            cols.push(index);
            asc.push(sort_keys[i].1);
            assert(cols_view(cols@) =~= old_cols.push(index as int));
            assert(cols_view(cols@) =~= cols_view(cols@.drop_last()).push(index as int));
            assert(asc@ =~= key_directions(sort_keys@).take(i + 1));
            i = i + 1;
        }
        assert(names.take(sort_keys@.len() as int) == names);
        assert(key_directions(sort_keys@).take(sort_keys@.len() as int) == key_directions(sort_keys@));
        self.sort_rows_at(&cols, &asc);
        Ok(())
    }
}

/// Once a key names no column, further keys do not change the reported name.
proof fn lemma_key_columns_error(columns: Seq<Seq<char>>, names: Seq<Seq<char>>, rest: Seq<Seq<char>>)
    requires
        key_columns(columns, names) is Err,
    ensures
        key_columns(columns, names + rest) == key_columns(columns, names),
    decreases rest.len(),
{
    if rest.len() > 0 {
        lemma_key_columns_error(columns, names, rest.drop_last());
        assert((names + rest).drop_last() == names + rest.drop_last());
    } else {
        assert(names + rest == names);
    }
}

/// A row as a map from column names to values, each name once.
pub struct ColumnMap {
    pub entries: Vec<(String, FieldValue)>,
}

/// The map that a list of entries stands for, a later entry of the same name winning.
pub open spec fn entries_map(es: Seq<(String, FieldValue)>) -> Map<Seq<char>, ValueModel>
    decreases es.len(),
{
    if es.len() == 0 {
        Map::empty()
    } else {
        entries_map(es.drop_last()).insert(es.last().0@, es.last().1@)
    }
}

/// No two entries share a name.
pub open spec fn distinct_names(es: Seq<(String, FieldValue)>) -> bool {
    forall|i: int, j: int| 0 <= i < j < es.len() ==> es[i].0@ != es[j].0@
}

proof fn lemma_entries_map_update(es: Seq<(String, FieldValue)>, j: int, v: FieldValue)
    requires
        distinct_names(es),
        0 <= j < es.len(),
    ensures
        entries_map(es.update(j, (es[j].0, v))) == entries_map(es).insert(es[j].0@, v@),
        distinct_names(es.update(j, (es[j].0, v))),
    decreases es.len(),
{
    let es2 = es.update(j, (es[j].0, v));
    if j == es.len() - 1 {
        assert(es2.drop_last() == es.drop_last());
        assert(entries_map(es2) =~= entries_map(es).insert(es[j].0@, v@)) by {
            assert forall|k: Seq<char>| #[trigger] entries_map(es2).contains_key(k) <==> entries_map(es).insert(es[j].0@, v@).contains_key(k) by {}
        }
    } else {
        lemma_entries_map_update(es.drop_last(), j, v);
        assert(es2.drop_last() == es.drop_last().update(j, (es[j].0, v)));
        assert(es.last().0@ != es[j].0@);
        assert(entries_map(es2) =~= entries_map(es).insert(es[j].0@, v@));
    }
}

proof fn lemma_entries_map_absent(es: Seq<(String, FieldValue)>, k: Seq<char>)
    requires
        forall|i: int| 0 <= i < es.len() ==> #[trigger] es[i].0@ != k,
    ensures
        !entries_map(es).contains_key(k),
    decreases es.len(),
{
    if es.len() > 0 {
        lemma_entries_map_absent(es.drop_last(), k);
    }
}

proof fn lemma_entries_map_lookup(es: Seq<(String, FieldValue)>, j: int)
    requires
        distinct_names(es),
        0 <= j < es.len(),
    ensures
        entries_map(es).contains_key(es[j].0@),
        entries_map(es)[es[j].0@] == es[j].1@,
    decreases es.len(),
{
    if j < es.len() - 1 {
        lemma_entries_map_lookup(es.drop_last(), j);
    }
}

impl ColumnMap {
    /// The map from column names to values.
    pub open spec fn map_view(&self) -> Map<Seq<char>, ValueModel> {
        entries_map(self.entries@)
    }

    /// The number of columns.
    pub fn len(&self) -> (r: usize)
        ensures
            r == self.entries@.len(),
    {
        self.entries.len()
    }

    /// The value under a column name.
    pub fn get(&self, key: &str) -> (r: Option<&FieldValue>)
        requires
            distinct_names(self.entries@),
        ensures
            self.map_view().contains_key(key@) ==> (r matches Some(v) && v@ == self.map_view()[key@]),
            !self.map_view().contains_key(key@) ==> r is None,
    {
        let mut i: usize = 0;
        while i < self.entries.len()
            invariant
                i <= self.entries.len(),
                distinct_names(self.entries@),
                forall|j: int| 0 <= j < i ==> #[trigger] self.entries@[j].0@ != key@,
            decreases self.entries.len() - i,
        {
            if str_equal(self.entries[i].0.as_str(), key) {
                proof {
                    lemma_entries_map_lookup(self.entries@, i as int);
                }
                return Some(&self.entries[i].1);
            }
            i = i + 1;
        }
        proof {
            lemma_entries_map_absent(self.entries@, key@);
        }
        None
    }
}

impl QueryRow {
    /// Convert the row to a map with column names as keys: the first `n` columns with
    /// the values at their positions, `n` the smaller of the two lengths; a later column
    /// of the same name wins.
    pub fn to_map(&self, columns: &[String]) -> (r: ColumnMap)
        ensures
            r.map_view() == row_map(names_view(columns@), self@),
            distinct_names(r.entries@),
    {
        let n: usize = if columns.len() < self.values.len() {
            columns.len()
        } else {
            self.values.len()
        };
        let ghost cs = names_view(columns@);
        let ghost vs = self@;
        let mut es: Vec<(String, FieldValue)> = Vec::new();
        let mut i: usize = 0;
        while i < n
            invariant
                i <= n,
                n <= columns@.len(),
                n <= self.values@.len(),
                cs == names_view(columns@),
                vs == self@,
                distinct_names(es@),
                entries_map(es@) == row_map(cs.take(i as int), vs.take(i as int)),
            decreases n - i,
        {
            let key = columns[i].clone();
            let val = self.values[i].duplicate();
            let mut j: usize = 0;
            let mut found = false;
            while j < es.len()
                invariant_except_break
                    !found,
                invariant
                    j <= es.len(),
                    forall|t: int| 0 <= t < j ==> #[trigger] es@[t].0@ != key@,
                ensures
                    found ==> j < es.len() && es@[j as int].0@ == key@,
                    !found ==> forall|t: int| 0 <= t < es.len() ==> #[trigger] es@[t].0@ != key@,
                decreases es.len() - j,
            {
                if str_equal(es[j].0.as_str(), key.as_str()) {
                    found = true;
                    break;
                }
                j = j + 1;
            }
            assert(cs.take(i + 1).drop_last() == cs.take(i as int));
            assert(vs.take(i + 1).drop_last() == vs.take(i as int));
            assert(cs.take(i + 1).last() == key@);
            assert(vs.take(i + 1).last() == val@);
            let ghost old_es = es@;
            if found {
                let k2 = es[j].0.clone();
                let ghost gval = val;
                es.set(j, (k2, val));
                proof {
                    lemma_entries_map_update(old_es, j as int, gval);
                    assert(es@ == old_es.update(j as int, (old_es[j as int].0, gval)));
                }
            } else {
                es.push((key, val));
                proof {
                    assert(es@.drop_last() == old_es);
                    assert forall|a: int, b: int| 0 <= a < b < es@.len() implies es@[a].0@ != es@[b].0@ by {
                        if b == es@.len() - 1 {
                            assert(old_es[a].0@ != key@);
                        }
                    }
                }
            }
            i = i + 1;
        }
        assert(cs.take(n as int) =~= cs.take(n as int));
        proof {
            lemma_row_map_truncate(cs, vs, n as int);
        }
        ColumnMap { entries: es }
    }
}

proof fn lemma_row_map_truncate(cs: Seq<Seq<char>>, vs: Seq<ValueModel>, n: int)
    requires
        n == (if cs.len() < vs.len() { cs.len() } else { vs.len() }),
    ensures
        row_map(cs, vs) == row_map(cs.take(n), vs.take(n)),
{
    if n > 0 {
        assert(cs.take(n).take(n - 1) == cs.take(n - 1));
        assert(vs.take(n).take(n - 1) == vs.take(n - 1));
    } else {
        assert(row_map(cs, vs) == Map::<Seq<char>, ValueModel>::empty());
    }
}

impl QueryResultSet {
    /// Convert to a list of maps (column name -> value), one per row.
    pub fn to_maps(&self) -> (r: Vec<ColumnMap>)
        ensures
            r@.len() == self.rows@.len(),
            forall|i: int| 0 <= i < r@.len() ==> #[trigger] r@[i].map_view() == row_map(
                self.column_names(),
                self.rows@[i]@,
            ) && distinct_names(r@[i].entries@),
    {
        let mut r: Vec<ColumnMap> = Vec::new();
        let mut i: usize = 0;
        while i < self.rows.len()
            invariant
                i <= self.rows.len(),
                r@.len() == i,
                forall|j: int| 0 <= j < i ==> #[trigger] r@[j].map_view() == row_map(
                    self.column_names(),
                    self.rows@[j]@,
                ) && distinct_names(r@[j].entries@),
            decreases self.rows.len() - i,
        {
            r.push(self.rows[i].to_map(self.columns.as_slice()));
            i = i + 1;
        }
        r
    }
}

} // verus!
