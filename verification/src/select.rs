use vstd::prelude::*;
use crate::ast::{Expression, FromItem, JoinClause, ParsedQuery, Projection, QueryBody, SelectClause};
use crate::engine::{
    apply_join, cross_rows, rows_model, rows_result, rows_valid, table_rows, RowModel, Rows,
};
use crate::error::{ErrorModel, QueryResult};
use crate::eval::{eval, evaluate, is_truthy, syntax_err, syntax_error, truthy, Binding};
use crate::graph::{Entity, EntityGraph};
use crate::order::{count_of, in_order, keys_defined, skip_take, sort_rows, window};
use crate::project::{build_columns, project_row, projected_values, projection_columns};
use crate::result::{names_view, width_message, QueryResultSet, QueryRow};
use crate::value::ValueModel;

verus! {

/// The rows so far joined, in turn, with the tables of a list of joins.
pub open spec fn joined(rows: Seq<RowModel>, js: Seq<JoinClause>, g: Seq<Entity>) -> Rows
    decreases js.len(),
{
    if js.len() == 0 {
        Some(Ok(rows))
    } else {
        match joined(rows, js.drop_last(), g) {
            Some(Ok(r)) => apply_join(r, js.last(), g),
            other => other,
        }
    }
}

/// The rows so far cross joined, in turn, with the tables of further FROM items (their
/// own joins are not applied).
pub open spec fn crossed(rows: Seq<RowModel>, items: Seq<FromItem>, g: Seq<Entity>) -> Result<Seq<RowModel>, ErrorModel>
    decreases items.len(),
{
    if items.len() == 0 {
        Ok(rows)
    } else {
        match crossed(rows, items.drop_last(), g) {
            Ok(r) => match table_rows(items.last().relation, g) {
                Ok(t) => Ok(cross_rows(r, t)),
                Err(e) => Err(e),
            },
            Err(e) => Err(e),
        }
    }
}

/// The rows of a FROM clause: its first table with that table's joins, then cross joined
/// with each further table. A query without FROM is refused.
pub open spec fn base_rows(from: Seq<FromItem>, g: Seq<Entity>) -> Rows {
    if from.len() == 0 {
        Some(Err(syntax_error("FROM clause is required"@)))
    } else {
        match table_rows(from[0].relation, g) {
            Err(e) => Some(Err(e)),
            Ok(first) => match joined(first, from[0].joins@, g) {
                Some(Ok(r)) => match crossed(r, from.drop_first(), g) {
                    Ok(x) => Some(Ok(x)),
                    Err(e) => Some(Err(e)),
                },
                other => other,
            },
        }
    }
}

/// The rows for which a condition is true, in order; the first row on which it fails
/// gives its error.
pub open spec fn filtered(rows: Seq<RowModel>, cond: Expression, g: Seq<Entity>) -> Rows
    decreases rows.len(),
{
    if rows.len() == 0 {
        Some(Ok(Seq::empty()))
    } else {
        match filtered(rows.drop_last(), cond, g) {
            Some(Ok(acc)) => match eval(cond, rows.last(), g) {
                Some(Ok(v)) => if truthy(v) {
                    Some(Ok(acc.push(rows.last())))
                } else {
                    Some(Ok(acc))
                },
                Some(Err(e)) => Some(Err(e)),
                None => None,
            },
            other => other,
        }
    }
}

proof fn lemma_joined_prefix(rows: Seq<RowModel>, js: Seq<JoinClause>, g: Seq<Entity>, k: int)
    requires
        0 <= k <= js.len(),
        !(joined(rows, js.take(k), g) matches Some(Ok(_))),
    ensures
        joined(rows, js, g) == joined(rows, js.take(k), g),
    decreases js.len() - k,
{
    if k < js.len() {
        assert(js.drop_last().take(k) == js.take(k));
        lemma_joined_prefix(rows, js.drop_last(), g, k);
    } else {
        assert(js.take(k) == js);
    }
}

proof fn lemma_crossed_prefix(rows: Seq<RowModel>, items: Seq<FromItem>, g: Seq<Entity>, k: int)
    requires
        0 <= k <= items.len(),
        crossed(rows, items.take(k), g) is Err,
    ensures
        crossed(rows, items, g) == crossed(rows, items.take(k), g),
    decreases items.len() - k,
{
    if k < items.len() {
        assert(items.drop_last().take(k) == items.take(k));
        lemma_crossed_prefix(rows, items.drop_last(), g, k);
    } else {
        assert(items.take(k) == items);
    }
}

proof fn lemma_filtered_prefix(rows: Seq<RowModel>, cond: Expression, g: Seq<Entity>, k: int)
    requires
        0 <= k <= rows.len(),
        !(filtered(rows.take(k), cond, g) matches Some(Ok(_))),
    ensures
        filtered(rows, cond, g) == filtered(rows.take(k), cond, g),
    decreases rows.len() - k,
{
    if k < rows.len() {
        assert(rows.drop_last().take(k) == rows.take(k));
        lemma_filtered_prefix(rows.drop_last(), cond, g, k);
    } else {
        assert(rows.take(k) == rows);
    }
}

/// The rows of a FROM clause.
pub fn base_rows_exec(from: &Vec<FromItem>, graph: &EntityGraph) -> (res: QueryResult<Vec<Vec<Binding>>>)
    ensures
        base_rows(from@, graph.entities@) matches Some(x) ==> rows_result(res) == x,
        res matches Ok(v) ==> rows_valid(rows_model(v@), graph.entities@),
{
    let ghost g = graph.entities@;
    if from.len() == 0 {
        return Err(syntax_err("FROM clause is required"));
    }
    let mut rows = crate::engine::table_rows_exec(&from[0].relation, graph)?;
    let ghost first = rows_model(rows@);
    let joins = &from[0].joins;
    let ghost js = joins@;
    let mut i: usize = 0;
    assert(js.take(0) =~= Seq::<JoinClause>::empty());
    while i < joins.len()
        invariant
            i <= joins.len(),
            js == joins@,
            from@.len() > 0,
            js == from@[0].joins@,
            table_rows(from@[0].relation, g) == Ok::<Seq<RowModel>, ErrorModel>(first),
            g == graph.entities@,
            rows_valid(rows_model(rows@), g),
            joined(first, js, g) is Some ==> joined(first, js.take(i as int), g) == Some(
                Ok::<Seq<RowModel>, ErrorModel>(rows_model(rows@)),
            ),
        decreases joins.len() - i,
    {
        assert(js.take(i + 1).drop_last() == js.take(i as int));
        assert(js.take(i + 1).last() == js[i as int]);
        let next = crate::engine::apply_join_exec(&rows, &joins[i], graph);
        proof {
            if !(joined(first, js.take(i + 1), g) matches Some(Ok(_))) {
                lemma_joined_prefix(first, js, g, i + 1);
            }
        }
        match next {
            Ok(v) => {
                rows = v;
            },
            Err(e) => {
                return Err(e);
            },
        }
        i = i + 1;
    }
    assert(js.take(joins.len() as int) == js);
    let ghost joined_rows = rows_model(rows@);
    let ghost rest = from@.drop_first();
    let mut k: usize = 1;
    assert(rest.take(0) =~= Seq::<FromItem>::empty());
    while k < from.len()
        invariant
            1 <= k <= from.len(),
            rest == from@.drop_first(),
            table_rows(from@[0].relation, g) == Ok::<Seq<RowModel>, ErrorModel>(first),
            joined(first, from@[0].joins@, g) is Some ==> joined(first, from@[0].joins@, g) == Some(
                Ok::<Seq<RowModel>, ErrorModel>(joined_rows),
            ),
            g == graph.entities@,
            rows_valid(rows_model(rows@), g),
            crossed(joined_rows, rest.take(k - 1), g) == Ok::<Seq<RowModel>, ErrorModel>(rows_model(rows@)),
        decreases from.len() - k,
    {
        assert(rest.take(k as int).drop_last() == rest.take(k - 1));
        assert(rest.take(k as int).last() == from@[k as int]);
        match crate::engine::table_rows_exec(&from[k].relation, graph) {
            Ok(t) => {
                rows = crate::engine::cross_exec(&rows, &t, graph);
            },
            Err(e) => {
                proof {
                    lemma_crossed_prefix(joined_rows, rest, g, k as int);
                }
                return Err(e);
            },
        }
        k = k + 1;
    }
    assert(rest.take(from.len() - 1) == rest);
    Ok(rows)
}

/// The rows for which a condition is true.
pub fn filter_rows(rows: &Vec<Vec<Binding>>, cond: &Expression, graph: &EntityGraph) -> (res: QueryResult<Vec<Vec<Binding>>>)
    requires
        rows_valid(rows_model(rows@), graph.entities@),
    ensures
        filtered(rows_model(rows@), *cond, graph.entities@) matches Some(x) ==> rows_result(res) == x,
        res matches Ok(v) ==> rows_valid(rows_model(v@), graph.entities@),
{
    let ghost rv = rows_model(rows@);
    let ghost g = graph.entities@;
    let mut acc: Vec<Vec<Binding>> = Vec::new();
    let mut i: usize = 0;
    assert(rv.take(0) =~= Seq::<RowModel>::empty());
    assert(rows_model(acc@) =~= Seq::<RowModel>::empty());
    while i < rows.len()
        invariant
            i <= rows.len(),
            rv == rows_model(rows@),
            g == graph.entities@,
            rows_valid(rv, g),
            rows_valid(rows_model(acc@), g),
            filtered(rv, *cond, g) is Some ==> filtered(rv.take(i as int), *cond, g) == Some(
                Ok::<Seq<RowModel>, ErrorModel>(rows_model(acc@)),
            ),
        decreases rows.len() - i,
    {
        assert(rv.take(i + 1).drop_last() == rv.take(i as int));
        assert(rv.take(i + 1).last() == rv[i as int]);
        assert(crate::eval::row_valid(rv[i as int], g));
        let v = evaluate(cond, &rows[i], graph);
        proof {
            if !(filtered(rv.take(i + 1), *cond, g) matches Some(Ok(_))) {
                lemma_filtered_prefix(rv, *cond, g, i + 1);
            }
        }
        match v {
            Ok(x) => {
                if is_truthy(&x) {
                    let ghost before = rows_model(acc@);
                    acc.push(crate::engine::clone_row(&rows[i]));
                    assert(rows_model(acc@) =~= before.push(rv[i as int]));
                }
            },
            Err(e) => {
                return Err(e);
            },
        }
        i = i + 1;
    }
    assert(rv.take(rows.len() as int) == rv);
    Ok(acc)
}

/// The values of the SELECT list in each row, in order; the first row that fails gives its
/// error, and a row with more or fewer values than there are columns is refused.
pub open spec fn emit(proj: Seq<Projection>, rows: Seq<RowModel>, g: Seq<Entity>, cols: Seq<Seq<char>>) -> Option<
    Result<Seq<Seq<ValueModel>>, ErrorModel>,
>
    decreases rows.len(),
{
    if rows.len() == 0 {
        Some(Ok(Seq::empty()))
    } else {
        match emit(proj, rows.drop_last(), g, cols) {
            Some(Ok(acc)) => match projected_values(proj, rows.last(), g, cols) {
                Some(Ok(vs)) => if vs.len() == cols.len() {
                    Some(Ok(acc.push(vs)))
                } else {
                    Some(Err(ErrorModel::Execution(width_message(vs.len(), cols.len()))))
                },
                Some(Err(e)) => Some(Err(e)),
                None => None,
            },
            other => other,
        }
    }
}

/// The rows that the WHERE condition keeps, or all rows without one.
pub open spec fn selection_rows(base: Seq<RowModel>, cond: Option<Expression>, g: Seq<Entity>) -> Rows {
    match cond {
        Some(c) => filtered(base, c, g),
        None => Some(Ok(base)),
    }
}

/// What a query gives once its rows are in order: the rows that LIMIT and OFFSET leave,
/// each with the values of the SELECT list.
pub open spec fn finish(q: ParsedQuery, proj: Seq<Projection>, sorted: Seq<RowModel>, cols: Seq<Seq<char>>, g: Seq<Entity>) -> Option<
    Result<Seq<Seq<ValueModel>>, ErrorModel>,
> {
    match window(sorted, q) {
        Err(e) => Some(Err(e)),
        Ok(w) => emit(proj, w, g, cols),
    }
}

/// The result of a query holds what it gives: the columns, the rows' values, the number
/// of rows that the FROM clause gave and the time it took; or the error it gives.
pub open spec fn answers(
    res: QueryResult<QueryResultSet>,
    out: Option<Result<Seq<Seq<ValueModel>>, ErrorModel>>,
    cols: Seq<Seq<char>>,
    scanned: nat,
) -> bool {
    match out {
        Some(Ok(vals)) => res matches Ok(set) && set.column_names() == cols && set.row_values() == vals
            && set.metadata.entities_scanned == Some(scanned as usize) && set.metadata.execution_time_ms is Some
            && set.metadata.execution_plan is None
            && !set.metadata.truncated && set.well_formed(),
        Some(Err(e)) => res matches Err(x) && x@ == e,
        None => true,
    }
}

/// What a SELECT gives: the rows of FROM, those that WHERE keeps, the columns of the
/// SELECT list over them, the rows in ORDER BY order, then LIMIT and OFFSET and the values.
/// Where an expression would panic, nothing is stated.
pub open spec fn select_answers(res: QueryResult<QueryResultSet>, q: ParsedQuery, sel: SelectClause, g: Seq<Entity>) -> bool {
    match base_rows(sel.from@, g) {
        Some(Err(e)) => res matches Err(x) && x@ == e,
        Some(Ok(base)) => match selection_rows(base, sel.selection, g) {
            Some(Err(e)) => res matches Err(x) && x@ == e,
            Some(Ok(rows)) => {
                let cols = projection_columns(sel.projection@, rows, g);
                match q.order_by {
                    None => answers(res, finish(q, sel.projection@, rows, cols, g), cols, base.len()),
                    Some(items) => keys_defined(rows, items@, g) ==> exists|sorted: Seq<RowModel>|
                        #![trigger in_order(rows, sorted, items@, g)]
                        in_order(rows, sorted, items@, g) && answers(
                            res,
                            finish(q, sel.projection@, sorted, cols, g),
                            cols,
                            base.len(),
                        ),
                }
            },
            None => true,
        },
        None => true,
    }
}

/// What a query gives: a SELECT as above; any other query is refused.
pub open spec fn query_answers(res: QueryResult<QueryResultSet>, q: ParsedQuery, g: Seq<Entity>) -> bool {
    match q.body {
        QueryBody::Select(sel) => select_answers(res, q, sel, g),
        QueryBody::Other => res matches Err(x) && x@ == syntax_error("Only SELECT statements are supported"@),
    }
}

proof fn lemma_emit_prefix(proj: Seq<Projection>, rows: Seq<RowModel>, g: Seq<Entity>, cols: Seq<Seq<char>>, k: int)
    requires
        0 <= k <= rows.len(),
        !(emit(proj, rows.take(k), g, cols) matches Some(Ok(_))),
    ensures
        emit(proj, rows, g, cols) == emit(proj, rows.take(k), g, cols),
    decreases rows.len() - k,
{
    if k < rows.len() {
        assert(rows.drop_last().take(k) == rows.take(k));
        lemma_emit_prefix(proj, rows.drop_last(), g, cols, k);
    } else {
        assert(rows.take(k) == rows);
    }
}

/// Adds to an empty result set the values of the SELECT list in each row.
pub(crate) fn emit_rows(proj: &Vec<Projection>, rows: &Vec<Vec<Binding>>, graph: &EntityGraph, set: &mut QueryResultSet) -> (r: QueryResult<()>)
    requires
        rows_valid(rows_model(rows@), graph.entities@),
        old(set).rows@.len() == 0,
    ensures
        final(set).columns == old(set).columns,
        final(set).metadata == old(set).metadata,
        final(set).well_formed(),
        emit(proj@, rows_model(rows@), graph.entities@, names_view(old(set).columns@)) matches Some(x) ==> match x {
            Ok(vals) => r is Ok && final(set).row_values() == vals,
            Err(e) => r matches Err(z) && z@ == e,
        },
{
    let ghost rv = rows_model(rows@);
    let ghost g = graph.entities@;
    let ghost cols = names_view(set.columns@);
    let ghost start = *set;
    let mut i: usize = 0;
    assert(rv.take(0) =~= Seq::<RowModel>::empty());
    assert(set.row_values() =~= Seq::<Seq<ValueModel>>::empty());
    while i < rows.len()
        invariant
            i <= rows.len(),
            rv == rows_model(rows@),
            g == graph.entities@,
            cols == names_view(set.columns@),
            start == *old(set),
            set.columns == start.columns,
            set.metadata == start.metadata,
            rows_valid(rv, g),
            set.well_formed(),
            emit(proj@, rv, g, cols) is Some ==> emit(proj@, rv.take(i as int), g, cols) == Some(
                Ok::<Seq<Seq<ValueModel>>, ErrorModel>(set.row_values()),
            ),
        decreases rows.len() - i,
    {
        assert(rv.take(i + 1).drop_last() == rv.take(i as int));
        assert(rv.take(i + 1).last() == rv[i as int]);
        assert(rv[i as int] == crate::eval::row_view(rows@[i as int]@));
        assert(crate::eval::row_valid(rv[i as int], g));
        proof {
            if !(emit(proj@, rv.take(i + 1), g, cols) matches Some(Ok(_))) {
                lemma_emit_prefix(proj@, rv, g, cols, i + 1);
            }
        }
        assert(crate::eval::texts(set.columns@) == cols);
        let values = match project_row(proj, &rows[i], graph, &set.columns) {
            Ok(v) => v,
            Err(e) => {
                return Err(e);
            },
        };
        let ghost before = set.row_values();
        let row = QueryRow::new(values);
        match set.add_row(row) {
            Ok(()) => {
                assert(set.row_values() =~= before.push(row@));
            },
            Err(e) => {
                return Err(e);
            },
        }
        i = i + 1;
    }
    assert(rv.take(rows.len() as int) == rv);
    Ok(())
}

/// The rows that LIMIT and OFFSET leave.
pub(crate) fn window_rows(sorted: Vec<Vec<Binding>>, query: &ParsedQuery) -> (r: QueryResult<Vec<Vec<Binding>>>)
    ensures
        match window(rows_model(sorted@), *query) {
            Ok(w) => r matches Ok(v) && rows_model(v@) == w,
            Err(e) => r matches Err(x) && x@ == e,
        },
{
    match &query.limit {
        None => Ok(sorted),
        Some(l) => {
            let n = count_of(l)?;
            let m = match &query.offset {
                Some(o) => count_of(o)?,
                None => 0,
            };
            Ok(crate::order::skip_take_rows(&sorted, m, n))
        },
    }
}

} // verus!
