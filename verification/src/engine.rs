use vstd::prelude::*;
use crate::ast::{
    CallArgs, Expression, FromItem, JoinCondition, JoinKind, Literal, OrderItem, ParsedQuery,
    Projection, QueryBody, SelectClause, TableRef,
};
use crate::error::{concat, owned, ErrorModel, QueryError, QueryResult};
use crate::eval::{
    binding_position, entity_field, eval, evaluate, find_binding, is_truthy, join_dot,
    join_with_dots, null_value, result_view, row_field, row_field_value, row_valid, row_view,
    syntax_err, syntax_error, texts, truthy, Binding,
};
use crate::graph::{positions_of_type, Entity, EntityGraph};
use crate::order::{in_order, keys_defined, sort_rows};
use crate::project::{build_columns, projection_columns};
use crate::result::{names_view, QueryResultSet};
use crate::select::{base_rows_exec, emit_rows, filter_rows, query_answers, select_answers, window_rows};
use crate::text::{to_lowercase, unicode_lowercase};
use crate::value::{compare_values, FieldValue, Order, ValueModel};

verus! {

/// The model of a row: each binding's name and entity position.
pub type RowModel = Seq<(Seq<char>, nat)>;

/// The models of a list of rows.
pub open spec fn rows_model(rows: Seq<Vec<Binding>>) -> Seq<RowModel> {
    rows.map_values(|r: Vec<Binding>| row_view(r@))
}

/// All rows refer only to entities of the graph.
pub open spec fn rows_valid(rows: Seq<RowModel>, g: Seq<Entity>) -> bool {
    forall|i: int| 0 <= i < rows.len() ==> row_valid(#[trigger] rows[i], g)
}

/// What a step of a query gives: rows or an error, or `None` where it panics.
pub type Rows = Option<Result<Seq<RowModel>, ErrorModel>>;

/// The name that a table is referred to by in a query.
pub open spec fn table_name(parts: Seq<String>) -> Seq<char> {
    join_dot(texts(parts))
}

/// The rows of one table: one row per entity of the type it names (in lower case), in the
/// order of the graph, each with the entity under the table's alias (or name). A type with
/// no entities is unknown.
pub open spec fn table_rows(t: TableRef, g: Seq<Entity>) -> Result<Seq<RowModel>, ErrorModel> {
    match t {
        TableRef::Table(parts, alias) => {
            let name = table_name(parts@);
            let ps = positions_of_type(g, unicode_lowercase(name));
            let label = match alias {
                Some(a) => a@,
                None => name,
            };
            if ps.len() == 0 {
                Err(ErrorModel::UnknownEntityType(name))
            } else {
                Ok(Seq::new(ps.len(), |i: int| seq![(label, ps[i])]))
            }
        },
        TableRef::Other => Err(syntax_error("Only table references are supported"@)),
    }
}

/// A row with a binding added: it replaces a binding of the same name, or goes first (a
/// row lists its entities from the most recently joined one on).
pub open spec fn insert_binding(row: RowModel, b: (Seq<char>, nat)) -> RowModel {
    match binding_position(row, b.0) {
        Some(i) => row.update(i, b),
        None => seq![b] + row,
    }
}

/// The row that joins two rows: the right row's bindings added to the left row.
pub open spec fn combine(l: RowModel, r: RowModel) -> RowModel
    decreases r.len(),
{
    if r.len() == 0 {
        l
    } else {
        insert_binding(combine(l, r.drop_last()), r.last())
    }
}

/// Whether the named field has equal values in two rows, for every name from `k` on.
pub open spec fn using_match(l: RowModel, r: RowModel, cols: Seq<Seq<char>>, g: Seq<Entity>, k: int) -> bool
    decreases cols.len() - k,
{
    if k < 0 || k >= cols.len() {
        true
    } else if compare_values(row_field(cols[k], l, g), row_field(cols[k], r, g)) != Some(Order::Equal) {
        false
    } else {
        using_match(l, r, cols, g, k + 1)
    }
}

/// Whether two rows meet a join condition: ON is evaluated on the joined row, USING
/// compares the named fields, and NATURAL or no condition always holds.
pub open spec fn join_test(l: RowModel, r: RowModel, c: JoinCondition, g: Seq<Entity>) -> Option<Result<bool, ErrorModel>> {
    match c {
        JoinCondition::On(e) => match eval(e, combine(l, r), g) {
            Some(Ok(v)) => Some(Ok(truthy(v))),
            Some(Err(err)) => Some(Err(err)),
            None => None,
        },
        JoinCondition::Using(cols) => Some(Ok(using_match(l, r, texts(cols@), g, 0))),
        _ => Some(Ok(true)),
    }
}

/// The joined rows of a left row with each matching right row, in order.
pub open spec fn matches_of(l: RowModel, rs: Seq<RowModel>, c: JoinCondition, g: Seq<Entity>) -> Rows
    decreases rs.len(),
{
    if rs.len() == 0 {
        Some(Ok(Seq::empty()))
    } else {
        match matches_of(l, rs.drop_last(), c, g) {
            Some(Ok(m)) => match join_test(l, rs.last(), c, g) {
                Some(Ok(true)) => Some(Ok(m.push(combine(l, rs.last())))),
                Some(Ok(false)) => Some(Ok(m)),
                Some(Err(err)) => Some(Err(err)),
                None => None,
            },
            other => other,
        }
    }
}

/// An inner join (`outer` false) or a left outer join (`outer` true): for each left row,
/// its joined rows; a left row without any is kept alone in an outer join.
pub open spec fn join_rows(ls: Seq<RowModel>, rs: Seq<RowModel>, c: JoinCondition, g: Seq<Entity>, outer: bool) -> Rows
    decreases ls.len(),
{
    if ls.len() == 0 {
        Some(Ok(Seq::empty()))
    } else {
        match join_rows(ls.drop_last(), rs, c, g, outer) {
            Some(Ok(acc)) => match matches_of(ls.last(), rs, c, g) {
                Some(Ok(m)) => if outer && m.len() == 0 {
                    Some(Ok(acc.push(ls.last())))
                } else {
                    Some(Ok(acc + m))
                },
                other => other,
            },
            other => other,
        }
    }
}

/// Whether some left row meets the condition with a right row.
pub open spec fn has_match(ls: Seq<RowModel>, r: RowModel, c: JoinCondition, g: Seq<Entity>) -> bool {
    exists|i: int| 0 <= i < ls.len() && join_test(ls[i], r, c, g) == Some(Ok::<bool, ErrorModel>(true))
}

/// The right rows that meet the condition with no left row, in order.
pub open spec fn unmatched(ls: Seq<RowModel>, rs: Seq<RowModel>, c: JoinCondition, g: Seq<Entity>) -> Seq<RowModel>
    decreases rs.len(),
{
    if rs.len() == 0 {
        Seq::empty()
    } else if has_match(ls, rs.last(), c, g) {
        unmatched(ls, rs.drop_last(), c, g)
    } else {
        unmatched(ls, rs.drop_last(), c, g).push(rs.last())
    }
}

/// A full outer join: the left outer join, then the right rows that matched no left row.
pub open spec fn full_join_rows(ls: Seq<RowModel>, rs: Seq<RowModel>, c: JoinCondition, g: Seq<Entity>) -> Rows {
    match join_rows(ls, rs, c, g, true) {
        Some(Ok(rows)) => Some(Ok(rows + unmatched(ls, rs, c, g))),
        other => other,
    }
}

/// A cross join: every left row joined with every right row.
pub open spec fn cross_rows(ls: Seq<RowModel>, rs: Seq<RowModel>) -> Seq<RowModel>
    decreases ls.len(),
{
    if ls.len() == 0 {
        Seq::empty()
    } else {
        cross_rows(ls.drop_last(), rs) + rs.map_values(|r: RowModel| combine(ls.last(), r))
    }
}

/// The rows of a join of the rows so far with a further table.
pub open spec fn apply_join(rows: Seq<RowModel>, j: crate::ast::JoinClause, g: Seq<Entity>) -> Rows {
    match table_rows(j.relation, g) {
        Err(e) => Some(Err(e)),
        Ok(rs) => match j.operator {
            JoinKind::Inner(c) => join_rows(rows, rs, c, g, false),
            JoinKind::LeftOuter(c) => join_rows(rows, rs, c, g, true),
            JoinKind::RightOuter(c) => join_rows(rs, rows, c, g, true),
            JoinKind::FullOuter(c) => full_join_rows(rows, rs, c, g),
            JoinKind::CrossJoin => Some(Ok(cross_rows(rows, rs))),
            JoinKind::Other => Some(Err(syntax_error("Unsupported join type"@))),
        },
    }
}

} // verus!

verus! {

/// Rows or their error, as a step's outcome.
pub open spec fn rows_result(r: QueryResult<Vec<Vec<Binding>>>) -> Result<Seq<RowModel>, ErrorModel> {
    match r {
        Ok(v) => Ok(rows_model(v@)),
        Err(e) => Err(e@),
    }
}

pub proof fn lemma_positions_bound(es: Seq<Entity>, t: Seq<char>)
    ensures
        forall|i: int| 0 <= i < positions_of_type(es, t).len() ==> #[trigger] positions_of_type(es, t)[i] < es.len(),
    decreases es.len(),
{
    if es.len() > 0 {
        lemma_positions_bound(es.drop_last(), t);
        let rest = positions_of_type(es.drop_last(), t);
        assert forall|i: int| 0 <= i < positions_of_type(es, t).len() implies #[trigger] positions_of_type(es, t)[i] < es.len() by {
            if i < rest.len() {
                assert(positions_of_type(es, t)[i] == rest[i]);
            }
        }
    }
}

proof fn lemma_insert_binding_valid(row: RowModel, b: (Seq<char>, nat), g: Seq<Entity>)
    requires
        row_valid(row, g),
        b.1 < g.len(),
    ensures
        row_valid(insert_binding(row, b), g),
{
    lemma_binding_position(row, b.0);
}

pub proof fn lemma_binding_position(row: RowModel, alias: Seq<char>)
    ensures
        binding_position(row, alias) matches Some(i) ==> 0 <= i < row.len() && row[i].0 == alias,
        binding_position(row, alias) is None ==> forall|i: int| 0 <= i < row.len() ==> row[i].0 != alias,
    decreases row.len(),
{
    if row.len() > 0 {
        lemma_binding_position(row.drop_first(), alias);
        if row[0].0 != alias {
            assert forall|i: int| 1 <= i < row.len() implies row[i] == row.drop_first()[i - 1] by {}
        }
    }
}

pub proof fn lemma_combine_valid(l: RowModel, r: RowModel, g: Seq<Entity>)
    requires
        row_valid(l, g),
        row_valid(r, g),
    ensures
        row_valid(combine(l, r), g),
    decreases r.len(),
{
    if r.len() > 0 {
        assert(row_valid(r.drop_last(), g)) by {
            assert forall|i: int| 0 <= i < r.drop_last().len() implies #[trigger] r.drop_last()[i].1 < g.len() by {
                assert(r.drop_last()[i] == r[i]);
            }
        }
        lemma_combine_valid(l, r.drop_last(), g);
        assert(r[r.len() - 1].1 < g.len());
        lemma_insert_binding_valid(combine(l, r.drop_last()), r.last(), g);
    }
}

/// A copy of a row.
pub fn clone_row(r: &Vec<Binding>) -> (c: Vec<Binding>)
    ensures
        row_view(c@) == row_view(r@),
{
    let mut c: Vec<Binding> = Vec::new();
    let mut i: usize = 0;
    while i < r.len()
        invariant
            i <= r.len(),
            c.len() == i,
            row_view(c@) == row_view(r@).take(i as int),
        decreases r.len() - i,
    {
        let ghost before = c@;
        let b = Binding { alias: r[i].alias.clone(), entity: r[i].entity };
        assert(b@ == r@[i as int]@);
        c.push(b);
        assert(row_view(c@) =~= row_view(r@).take(i + 1)) by {
            assert(c@ == before.push(b));
        }
        i = i + 1;
    }
    assert(row_view(r@).take(r.len() as int) == row_view(r@));
    c
}

/// The row that joins two rows.
pub fn combine_rows(l: &Vec<Binding>, r: &Vec<Binding>) -> (c: Vec<Binding>)
    ensures
        row_view(c@) == combine(row_view(l@), row_view(r@)),
{
    let ghost lv = row_view(l@);
    let ghost rv = row_view(r@);
    let mut c = clone_row(l);
    let mut k: usize = 0;
    assert(rv.take(0).len() == 0);
    while k < r.len()
        invariant
            k <= r.len(),
            lv == row_view(l@),
            rv == row_view(r@),
            row_view(c@) == combine(lv, rv.take(k as int)),
        decreases r.len() - k,
    {
        assert(rv.take(k + 1).drop_last() == rv.take(k as int));
        assert(rv.take(k + 1).last() == rv[k as int]);
        let ghost before = row_view(c@);
        let b = Binding { alias: r[k].alias.clone(), entity: r[k].entity };
        match find_binding(&c, r[k].alias.as_str()) {
            Some(i) => {
                c.set(i, b);
                assert(row_view(c@) =~= before.update(i as int, rv[k as int]));
            },
            None => {
                c.insert(0, b);
                assert(row_view(c@) =~= seq![rv[k as int]] + before);
            },
        }
        k = k + 1;
    }
    assert(rv.take(r.len() as int) == rv);
    c
}

/// Whether two rows meet a join condition.
fn join_test_exec(l: &Vec<Binding>, r: &Vec<Binding>, c: &JoinCondition, graph: &EntityGraph) -> (res: QueryResult<bool>)
    requires
        row_valid(row_view(l@), graph.entities@),
        row_valid(row_view(r@), graph.entities@),
    ensures
        join_test(row_view(l@), row_view(r@), *c, graph.entities@) matches Some(x) ==> crate::eval::flag_view(res) == x,
{
    match c {
        JoinCondition::On(e) => {
            let combined = combine_rows(l, r);
            proof {
                lemma_combine_valid(row_view(l@), row_view(r@), graph.entities@);
            }
            let v = evaluate(e, &combined, graph)?;
            Ok(is_truthy(&v))
        },
        JoinCondition::Using(cols) => {
            let ghost cs = texts(cols@);
            let mut k: usize = 0;
            while k < cols.len()
                invariant
                    k <= cols.len(),
                    cs == texts(cols@),
                    join_test(row_view(l@), row_view(r@), *c, graph.entities@) == Some(
                        Ok::<bool, ErrorModel>(using_match(row_view(l@), row_view(r@), cs, graph.entities@, 0)),
                    ),
                    row_valid(row_view(l@), graph.entities@),
                    row_valid(row_view(r@), graph.entities@),
                    using_match(row_view(l@), row_view(r@), cs, graph.entities@, k as int) == using_match(
                        row_view(l@),
                        row_view(r@),
                        cs,
                        graph.entities@,
                        0,
                    ),
                decreases cols.len() - k,
            {
                assert(cs[k as int] == cols@[k as int]@);
                let lv = row_field_value(cols[k].as_str(), l, graph);
                let rv = row_field_value(cols[k].as_str(), r, graph);
                if !matches!(lv.compare(&rv), Some(Order::Equal)) {
                    assert(!using_match(row_view(l@), row_view(r@), cs, graph.entities@, k as int));
                    return Ok(false);
                }
                k = k + 1;
            }
            Ok(true)
        },
        _ => Ok(true),
    }
}

proof fn lemma_matches_prefix(l: RowModel, rs: Seq<RowModel>, c: JoinCondition, g: Seq<Entity>, k: int)
    requires
        0 <= k <= rs.len(),
        !(matches_of(l, rs.take(k), c, g) matches Some(Ok(_))),
    ensures
        matches_of(l, rs, c, g) == matches_of(l, rs.take(k), c, g),
    decreases rs.len() - k,
{
    if k < rs.len() {
        assert(rs.drop_last().take(k) == rs.take(k));
        lemma_matches_prefix(l, rs.drop_last(), c, g, k);
    } else {
        assert(rs.take(k) == rs);
    }
}

/// Rows with the flags of the right rows that matched, or their error.
pub open spec fn hits_rows(r: QueryResult<(Vec<Vec<Binding>>, Vec<bool>)>) -> Result<Seq<RowModel>, ErrorModel> {
    match r {
        Ok(p) => Ok(rows_model(p.0@)),
        Err(e) => Err(e@),
    }
}

/// The joined rows of a left row with each matching right row, and for each right row
/// whether it matched.
fn matches_exec(l: &Vec<Binding>, rs: &Vec<Vec<Binding>>, c: &JoinCondition, graph: &EntityGraph) -> (res: QueryResult<(Vec<Vec<Binding>>, Vec<bool>)>)
    requires
        row_valid(row_view(l@), graph.entities@),
        rows_valid(rows_model(rs@), graph.entities@),
    ensures
        matches_of(row_view(l@), rows_model(rs@), *c, graph.entities@) matches Some(x) ==> hits_rows(res) == x,
        res matches Ok(p) ==> rows_valid(rows_model(p.0@), graph.entities@) && p.1.len() == rs.len() && (
        matches_of(row_view(l@), rows_model(rs@), *c, graph.entities@) matches Some(Ok(_)) ==> forall|j: int|
            0 <= j < rs.len() ==> p.1@[j] == (join_test(row_view(l@), #[trigger] rows_model(rs@)[j], *c, graph.entities@)
                == Some(Ok::<bool, ErrorModel>(true)))),
{
    let ghost lv = row_view(l@);
    let ghost rsv = rows_model(rs@);
    let ghost g = graph.entities@;
    let mut acc: Vec<Vec<Binding>> = Vec::new();
    let mut hits: Vec<bool> = Vec::new();
    let mut k: usize = 0;
    assert(rsv.take(0) =~= Seq::<RowModel>::empty());
    assert(rows_model(acc@) =~= Seq::<RowModel>::empty());
    while k < rs.len()
        invariant
            k <= rs.len(),
            hits.len() == k,
            lv == row_view(l@),
            rsv == rows_model(rs@),
            g == graph.entities@,
            row_valid(lv, g),
            rows_valid(rsv, g),
            rows_valid(rows_model(acc@), g),
            matches_of(lv, rsv, *c, g) is Some ==> matches_of(lv, rsv.take(k as int), *c, g) == Some(
                Ok::<Seq<RowModel>, ErrorModel>(rows_model(acc@)),
            ),
            matches_of(lv, rsv, *c, g) matches Some(Ok(_)) ==> forall|j: int|
                0 <= j < k ==> hits@[j] == (join_test(lv, #[trigger] rsv[j], *c, g) == Some(Ok::<bool, ErrorModel>(true))),
        decreases rs.len() - k,
    {
        assert(rsv.take(k + 1).drop_last() == rsv.take(k as int));
        assert(rsv.take(k + 1).last() == rsv[k as int]);
        assert(row_valid(rsv[k as int], g));
        let t = join_test_exec(l, &rs[k], c, graph);
        proof {
            if !(matches_of(lv, rsv.take(k + 1), *c, g) matches Some(Ok(_))) {
                lemma_matches_prefix(lv, rsv, *c, g, k + 1);
            }
        }
        match t {
            Ok(true) => {
                let combined = combine_rows(l, &rs[k]);
                proof {
                    lemma_combine_valid(lv, rsv[k as int], g);
                }
                let ghost before = rows_model(acc@);
                acc.push(combined);
                assert(rows_model(acc@) =~= before.push(combine(lv, rsv[k as int])));
                hits.push(true);
            },
            Ok(false) => {
                hits.push(false);
            },
            Err(e) => {
                return Err(e);
            },
        }
        k = k + 1;
    }
    assert(rsv.take(rs.len() as int) == rsv);
    Ok((acc, hits))
}

proof fn lemma_join_prefix(ls: Seq<RowModel>, rs: Seq<RowModel>, c: JoinCondition, g: Seq<Entity>, outer: bool, k: int)
    requires
        0 <= k <= ls.len(),
        !(join_rows(ls.take(k), rs, c, g, outer) matches Some(Ok(_))),
    ensures
        join_rows(ls, rs, c, g, outer) == join_rows(ls.take(k), rs, c, g, outer),
    decreases ls.len() - k,
{
    if k < ls.len() {
        assert(ls.drop_last().take(k) == ls.take(k));
        lemma_join_prefix(ls.drop_last(), rs, c, g, outer, k);
    } else {
        assert(ls.take(k) == ls);
    }
}

/// The rows of an inner join (`outer` false) or a left outer join (`outer` true), with
/// the flags of the right rows that matched some left row.
fn join_exec(ls: &Vec<Vec<Binding>>, rs: &Vec<Vec<Binding>>, c: &JoinCondition, graph: &EntityGraph, outer: bool) -> (res: QueryResult<(Vec<Vec<Binding>>, Vec<bool>)>)
    requires
        rows_valid(rows_model(ls@), graph.entities@),
        rows_valid(rows_model(rs@), graph.entities@),
    ensures
        join_rows(rows_model(ls@), rows_model(rs@), *c, graph.entities@, outer) matches Some(x) ==> hits_rows(res) == x,
        res matches Ok(p) ==> rows_valid(rows_model(p.0@), graph.entities@) && p.1.len() == rs.len() && (
        join_rows(rows_model(ls@), rows_model(rs@), *c, graph.entities@, outer) matches Some(Ok(_)) ==> forall|j: int|
            0 <= j < rs.len() ==> p.1@[j] == has_match(rows_model(ls@), #[trigger] rows_model(rs@)[j], *c, graph.entities@)),
{
    let ghost lsv = rows_model(ls@);
    let ghost rsv = rows_model(rs@);
    let ghost g = graph.entities@;
    let mut acc: Vec<Vec<Binding>> = Vec::new();
    let mut matched: Vec<bool> = Vec::new();
    let mut j: usize = 0;
    while j < rs.len()
        invariant
            j <= rs.len(),
            matched.len() == j,
            forall|q: int| 0 <= q < j ==> !matched@[q],
        decreases rs.len() - j,
    {
        matched.push(false);
        j = j + 1;
    }
    let mut i: usize = 0;
    assert(lsv.take(0) =~= Seq::<RowModel>::empty());
    assert(rows_model(acc@) =~= Seq::<RowModel>::empty());
    while i < ls.len()
        invariant
            i <= ls.len(),
            matched.len() == rs.len(),
            lsv == rows_model(ls@),
            rsv == rows_model(rs@),
            g == graph.entities@,
            rows_valid(lsv, g),
            rows_valid(rsv, g),
            rows_valid(rows_model(acc@), g),
            join_rows(lsv, rsv, *c, g, outer) is Some ==> join_rows(lsv.take(i as int), rsv, *c, g, outer) == Some(
                Ok::<Seq<RowModel>, ErrorModel>(rows_model(acc@)),
            ),
            join_rows(lsv, rsv, *c, g, outer) matches Some(Ok(_)) ==> forall|q: int|
                0 <= q < rs.len() ==> matched@[q] == has_match(lsv.take(i as int), #[trigger] rsv[q], *c, g),
        decreases ls.len() - i,
    {
        assert(lsv.take(i + 1).drop_last() == lsv.take(i as int));
        assert(lsv.take(i + 1).last() == lsv[i as int]);
        assert(row_valid(lsv[i as int], g));
        let m = matches_exec(&ls[i], rs, c, graph);
        proof {
            if !(join_rows(lsv.take(i + 1), rsv, *c, g, outer) matches Some(Ok(_))) {
                lemma_join_prefix(lsv, rsv, *c, g, outer, i + 1);
            }
        }
        match m {
            Ok(p) => {
                let (mut rows, hits) = p;
                let ghost before = rows_model(acc@);
                if outer && rows.len() == 0 {
                    acc.push(clone_row(&ls[i]));
                    assert(rows_model(acc@) =~= before.push(lsv[i as int]));
                } else {
                    let ghost added = rows_model(rows@);
                    acc.append(&mut rows);
                    assert(rows_model(acc@) =~= before + added);
                }
                let ghost seen = matched@;
                let mut q: usize = 0;
                while q < rs.len()
                    invariant
                        q <= rs.len(),
                        matched.len() == rs.len(),
                        hits.len() == rs.len(),
                        seen.len() == rs.len(),
                        forall|x: int| 0 <= x < q ==> #[trigger] matched@[x] == (seen[x] || hits@[x]),
                        forall|x: int| q <= x < rs.len() ==> #[trigger] matched@[x] == seen[x],
                    decreases rs.len() - q,
                {
                    assert(matched@[q as int] == seen[q as int]);
                    if hits[q] {
                        matched.set(q, true);
                    }
                    assert(matched@[q as int] == (seen[q as int] || hits@[q as int]));
                    q = q + 1;
                }
                proof {
                    if join_rows(lsv, rsv, *c, g, outer) matches Some(Ok(_)) {
                        assert forall|x: int| 0 <= x < rs.len() implies matched@[x] == has_match(
                            lsv.take(i + 1),
                            #[trigger] rsv[x],
                            *c,
                            g,
                        ) by {
                            let before_l = lsv.take(i as int);
                            let after_l = lsv.take(i + 1);
                            if has_match(after_l, rsv[x], *c, g) {
                                let w = choose|w: int| 0 <= w < after_l.len() && join_test(after_l[w], rsv[x], *c, g)
                                    == Some(Ok::<bool, ErrorModel>(true));
                                if w < i {
                                    assert(before_l[w] == after_l[w]);
                                }
                            }
                            if has_match(before_l, rsv[x], *c, g) {
                                let w = choose|w: int| 0 <= w < before_l.len() && join_test(before_l[w], rsv[x], *c, g)
                                    == Some(Ok::<bool, ErrorModel>(true));
                                assert(after_l[w] == before_l[w]);
                            }
                            if hits@[x] {
                                assert(after_l[i as int] == lsv[i as int]);
                            }
                        }
                    }
                }
            },
            Err(e) => {
                return Err(e);
            },
        }
        i = i + 1;
    }
    assert(lsv.take(ls.len() as int) == lsv);
    Ok((acc, matched))
}

/// The rows of a full outer join.
fn full_join_exec(ls: &Vec<Vec<Binding>>, rs: &Vec<Vec<Binding>>, c: &JoinCondition, graph: &EntityGraph) -> (res: QueryResult<Vec<Vec<Binding>>>)
    requires
        rows_valid(rows_model(ls@), graph.entities@),
        rows_valid(rows_model(rs@), graph.entities@),
    ensures
        full_join_rows(rows_model(ls@), rows_model(rs@), *c, graph.entities@) matches Some(x) ==> rows_result(res) == x,
        res matches Ok(v) ==> rows_valid(rows_model(v@), graph.entities@),
{
    let ghost lsv = rows_model(ls@);
    let ghost rsv = rows_model(rs@);
    let ghost g = graph.entities@;
    let (mut acc, matched) = match join_exec(ls, rs, c, graph, true) {
        Ok(p) => p,
        Err(e) => {
            return Err(e);
        },
    };
    let ghost base = rows_model(acc@);
    let mut j: usize = 0;
    assert(rsv.take(0) =~= Seq::<RowModel>::empty());
    assert(base + unmatched(lsv, rsv.take(0), *c, g) =~= base);
    while j < rs.len()
        invariant
            j <= rs.len(),
            matched.len() == rs.len(),
            lsv == rows_model(ls@),
            rsv == rows_model(rs@),
            g == graph.entities@,
            rows_valid(rsv, g),
            rows_valid(rows_model(acc@), g),
            join_rows(lsv, rsv, *c, g, true) matches Some(Ok(_)) ==> forall|q: int|
                0 <= q < rs.len() ==> matched@[q] == has_match(lsv, #[trigger] rsv[q], *c, g),
            join_rows(lsv, rsv, *c, g, true) matches Some(Ok(_)) ==> rows_model(acc@) == base + unmatched(
                lsv,
                rsv.take(j as int),
                *c,
                g,
            ),
            join_rows(lsv, rsv, *c, g, true) matches Some(Ok(b)) ==> b == base,
        decreases rs.len() - j,
    {
        assert(rsv.take(j + 1).drop_last() == rsv.take(j as int));
        assert(rsv.take(j + 1).last() == rsv[j as int]);
        assert(row_valid(rsv[j as int], g));
        if !matched[j] {
            let ghost before = rows_model(acc@);
            acc.push(clone_row(&rs[j]));
            assert(rows_model(acc@) =~= before.push(rsv[j as int]));
        }
        j = j + 1;
    }
    assert(rsv.take(rs.len() as int) == rsv);
    Ok(acc)
}

/// The rows of a cross join.
pub(crate) fn cross_exec(ls: &Vec<Vec<Binding>>, rs: &Vec<Vec<Binding>>, graph: &EntityGraph) -> (res: Vec<Vec<Binding>>)
    requires
        rows_valid(rows_model(ls@), graph.entities@),
        rows_valid(rows_model(rs@), graph.entities@),
    ensures
        rows_model(res@) == cross_rows(rows_model(ls@), rows_model(rs@)),
        rows_valid(rows_model(res@), graph.entities@),
{
    let ghost lsv = rows_model(ls@);
    let ghost rsv = rows_model(rs@);
    let ghost g = graph.entities@;
    let mut acc: Vec<Vec<Binding>> = Vec::new();
    let mut i: usize = 0;
    assert(lsv.take(0) =~= Seq::<RowModel>::empty());
    assert(rows_model(acc@) =~= Seq::<RowModel>::empty());
    while i < ls.len()
        invariant
            i <= ls.len(),
            lsv == rows_model(ls@),
            rsv == rows_model(rs@),
            g == graph.entities@,
            rows_valid(lsv, g),
            rows_valid(rsv, g),
            rows_valid(rows_model(acc@), g),
            rows_model(acc@) == cross_rows(lsv.take(i as int), rsv),
        decreases ls.len() - i,
    {
        assert(lsv.take(i + 1).drop_last() == lsv.take(i as int));
        assert(lsv.take(i + 1).last() == lsv[i as int]);
        let ghost l = lsv[i as int];
        assert(row_valid(l, g));
        let ghost start = rows_model(acc@);
        let mut j: usize = 0;
        assert(rsv.take(0).map_values(|r: RowModel| combine(l, r)) =~= Seq::<RowModel>::empty());
        assert(start + Seq::<RowModel>::empty() =~= start);
        while j < rs.len()
            invariant
                j <= rs.len(),
                i < ls.len(),
                l == lsv[i as int],
                lsv == rows_model(ls@),
                rsv == rows_model(rs@),
                g == graph.entities@,
                row_valid(l, g),
                rows_valid(rsv, g),
                rows_valid(rows_model(acc@), g),
                rows_model(acc@) == start + rsv.take(j as int).map_values(|r: RowModel| combine(l, r)),
            decreases rs.len() - j,
        {
            assert(row_valid(rsv[j as int], g));
            let combined = combine_rows(&ls[i], &rs[j]);
            proof {
                lemma_combine_valid(l, rsv[j as int], g);
            }
            let ghost before = rows_model(acc@);
            acc.push(combined);
            assert(rows_model(acc@) =~= before.push(combine(l, rsv[j as int])));
            assert(rsv.take(j + 1).map_values(|r: RowModel| combine(l, r)) =~= rsv.take(j as int).map_values(
                |r: RowModel| combine(l, r),
            ).push(combine(l, rsv[j as int])));
            j = j + 1;
        }
        assert(rsv.take(rs.len() as int) == rsv);
        i = i + 1;
    }
    assert(lsv.take(ls.len() as int) == lsv);
    acc
}

proof fn lemma_rows_of_type_valid(ps: Seq<nat>, label: Seq<char>, g: Seq<Entity>)
    requires
        forall|i: int| 0 <= i < ps.len() ==> #[trigger] ps[i] < g.len(),
    ensures
        rows_valid(Seq::new(ps.len(), |i: int| seq![(label, ps[i])]), g),
{
    let rows = Seq::new(ps.len(), |i: int| seq![(label, ps[i])]);
    assert forall|i: int| 0 <= i < rows.len() implies row_valid(#[trigger] rows[i], g) by {
        assert(rows[i] == seq![(label, ps[i])]);
        assert(ps[i] < g.len());
    }
}

/// The rows of one table of the FROM clause.
pub(crate) fn table_rows_exec(t: &TableRef, graph: &EntityGraph) -> (res: QueryResult<Vec<Vec<Binding>>>)
    ensures
        rows_result(res) == table_rows(*t, graph.entities@),
        res matches Ok(v) ==> rows_valid(rows_model(v@), graph.entities@),
{
    match t {
        TableRef::Table(parts, alias) => {
            let name = join_with_dots(parts);
            let lowered = to_lowercase(name.as_str());
            let ps = graph.list_by_type(lowered.as_str());
            let ghost pv = positions_of_type(graph.entities@, lowered@);
            assert(ps@.len() == pv.len());
            if ps.len() == 0 {
                return Err(QueryError::unknown_entity_type(name.as_str()));
            }
            let label = match alias {
                Some(a) => a.clone(),
                None => name.clone(),
            };
            proof {
                lemma_positions_bound(graph.entities@, lowered@);
            }
            let ghost want = Seq::new(pv.len(), |i: int| seq![(label@, pv[i])]);
            let mut rows: Vec<Vec<Binding>> = Vec::new();
            let mut i: usize = 0;
            while i < ps.len()
                invariant
                    i <= ps.len(),
                    ps@.len() == pv.len(),
                    pv == positions_of_type(graph.entities@, lowered@),
                    ps@.map_values(|k: usize| k as nat) == pv,
                    want == Seq::new(pv.len(), |i: int| seq![(label@, pv[i])]),
                    rows_model(rows@) == want.take(i as int),
                decreases ps.len() - i,
            {
                assert(ps@[i as int] as nat == pv[i as int]);
                let mut row: Vec<Binding> = Vec::new();
                row.push(Binding { alias: label.clone(), entity: ps[i] });
                let ghost before = rows_model(rows@);
                assert(row_view(row@) =~= seq![(label@, pv[i as int])]);
                rows.push(row);
                assert(rows_model(rows@) =~= before.push(want[i as int]));
                assert(want.take(i + 1) =~= want.take(i as int).push(want[i as int]));
                i = i + 1;
            }
            assert(want.take(ps.len() as int) == want);
            proof {
                lemma_rows_of_type_valid(pv, label@, graph.entities@);
            }
            Ok(rows)
        },
        TableRef::Other => Err(syntax_err("Only table references are supported")),
    }
}

/// The rows of the rows so far joined with a further table.
pub(crate) fn apply_join_exec(rows: &Vec<Vec<Binding>>, j: &crate::ast::JoinClause, graph: &EntityGraph) -> (res: QueryResult<Vec<Vec<Binding>>>)
    requires
        rows_valid(rows_model(rows@), graph.entities@),
    ensures
        apply_join(rows_model(rows@), *j, graph.entities@) matches Some(x) ==> rows_result(res) == x,
        res matches Ok(v) ==> rows_valid(rows_model(v@), graph.entities@),
{
    let rs = match table_rows_exec(&j.relation, graph) {
        Ok(v) => v,
        Err(e) => {
            return Err(e);
        },
    };
    match &j.operator {
        JoinKind::Inner(c) => match join_exec(rows, &rs, c, graph, false) {
            Ok(p) => Ok(p.0),
            Err(e) => Err(e),
        },
        JoinKind::LeftOuter(c) => match join_exec(rows, &rs, c, graph, true) {
            Ok(p) => Ok(p.0),
            Err(e) => Err(e),
        },
        JoinKind::RightOuter(c) => match join_exec(&rs, rows, c, graph, true) {
            Ok(p) => Ok(p.0),
            Err(e) => Err(e),
        },
        JoinKind::FullOuter(c) => full_join_exec(rows, &rs, c, graph),
        JoinKind::CrossJoin => Ok(cross_exec(rows, &rs, graph)),
        JoinKind::Other => Err(syntax_err("Unsupported join type")),
    }
}

#[verifier::external_type_specification]
#[verifier::external_body]
pub struct ExInstant(std::time::Instant);

/// `Instant::now`: a reading of the clock. Nothing is stated of it.
#[verifier::external_body]
fn clock_now() -> std::time::Instant {
    std::time::Instant::now()
}

/// `Instant::elapsed`: the time since a reading. Nothing is stated of it.
#[verifier::external_body]
fn time_since(start: &std::time::Instant) -> core::time::Duration {
    start.elapsed()
}

/// `Duration::as_millis`: the whole milliseconds of a duration. Nothing is stated of it.
#[verifier::external_body]
fn whole_millis(d: &core::time::Duration) -> u128 {
    d.as_millis()
}

/// Query execution engine that runs parsed queries against an EntityGraph.
pub struct QueryEngine {}

impl QueryEngine {
    /// Create a new query engine.
    pub fn new() -> (r: Self) {
        QueryEngine {  }
    }

    /// Execute a parsed query and return results.
    pub fn execute(&self, query: &ParsedQuery, graph: &EntityGraph) -> (res: QueryResult<QueryResultSet>)
        ensures
            query_answers(res, *query, graph.entities@),
    {
        match &query.body {
            QueryBody::Select(sel) => self.execute_select(sel, query, graph),
            QueryBody::Other => Err(syntax_err("Only SELECT statements are supported")),
        }
    }

    /// Execute a SELECT statement.
    fn execute_select(&self, sel: &SelectClause, query: &ParsedQuery, graph: &EntityGraph) -> (res: QueryResult<QueryResultSet>)
        requires
            query.body == QueryBody::Select(*sel),
        ensures
            select_answers(res, *query, *sel, graph.entities@),
    {
        let ghost g = graph.entities@;
        let start_time = clock_now();
        let base = match base_rows_exec(&sel.from, graph) {
            Ok(b) => b,
            Err(e) => {
                return Err(e);
            },
        };
        let ghost bv = rows_model(base@);
        let scanned = base.len();
        let rows = match &sel.selection {
            Some(c) => match filter_rows(&base, c, graph) {
                Ok(f) => f,
                Err(e) => {
                    return Err(e);
                },
            },
            None => base,
        };
        let ghost rv = rows_model(rows@);
        let columns = build_columns(&sel.projection, &rows, graph);
        let ghost cols = projection_columns(sel.projection@, rv, g);
        let sorted = match &query.order_by {
            Some(items) => sort_rows(&rows, items, graph),
            None => rows,
        };
        let ghost sv = rows_model(sorted@);
        let kept = match window_rows(sorted, query) {
            Ok(w) => w,
            Err(e) => {
                return Err(e);
            },
        };
        proof {
            if query.limit is Some {
                let n = crate::order::count_value(query.limit->Some_0)->Ok_0;
                let m: u64 = if query.offset is Some {
                    crate::order::count_value(query.offset->Some_0)->Ok_0
                } else {
                    0
                };
                crate::order::lemma_skip_take_valid(sv, m as nat, n as nat, g);
            }
        }
        let mut result_set = QueryResultSet::new(columns);
        let elapsed = time_since(&start_time);
        let ms = whole_millis(&elapsed);
        result_set.metadata.execution_time_ms = Some(ms as u64);
        result_set.metadata.entities_scanned = Some(scanned);
        let r = emit_rows(&sel.projection, &kept, graph, &mut result_set);
        proof {
            assert(names_view(result_set.columns@) == cols);
            if query.order_by is Some {
                if keys_defined(rv, query.order_by->Some_0@, g) {
                    assert(in_order(rv, sv, query.order_by->Some_0@, g));
                }
            }
        }
        match r {
            Ok(()) => Ok(result_set),
            Err(e) => Err(e),
        }
    }
}

} // verus!
