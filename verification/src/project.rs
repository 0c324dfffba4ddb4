use vstd::prelude::*;
use crate::ast::{Expression, Projection};
use crate::engine::{rows_model, rows_valid, table_name, RowModel};
use crate::error::{concat, owned, ErrorModel, QueryResult};
use crate::eval::{
    binding_position, entity_field, entity_field_value, eval, evaluate, find_binding, join_dot,
    join_with_dots, null_field, null_value, result_view, row_field, row_field_value, row_valid,
    row_view, texts, Binding,
};
use crate::graph::{Entity, EntityGraph};
use crate::like::starts_with;
use crate::names::{insert_name, sorted_names, strictly_sorted};
use crate::text::{chars_of, string_of};
use crate::value::{FieldValue, ValueModel};

verus! {

/// The column name of an unnamed expression: a name as written, a dotted name joined by
/// dots, a function call by its name and `(...)`, and anything else `expr`.
pub open spec fn expr_column(e: Expression) -> Seq<char> {
    match e {
        Expression::Identifier(n) => n@,
        Expression::CompoundIdentifier(parts) => join_dot(texts(parts@)),
        Expression::Function(f) => join_dot(texts(f.name@)) + "(...)"@,
        _ => "expr"@,
    }
}

/// The names an entity contributes to a wildcard, each after `prefix`: `id` and the
/// names of its fields.
pub open spec fn entity_names(e: Entity, prefix: Seq<char>) -> Set<Seq<char>> {
    Set::new(
        |n: Seq<char>|
            n == prefix + "id"@ || exists|f: int| 0 <= f < e.fields@.len() && n == prefix + e.fields@[f].name@,
    )
}

/// The columns of `*`: `id` and every field name of every entity of every row.
pub open spec fn wildcard_names(rows: Seq<RowModel>, g: Seq<Entity>) -> Set<Seq<char>> {
    Set::new(
        |n: Seq<char>|
            exists|i: int, k: int|
                0 <= i < rows.len() && 0 <= k < rows[i].len() && #[trigger] entity_names(
                    g[rows[i][k].1 as int],
                    Seq::empty(),
                ).contains(n),
    )
}

/// The columns of `t.*`: `t.id` and `t.` with every field name of the entity that `t`
/// names in each row that has one.
pub open spec fn qualified_names(rows: Seq<RowModel>, t: Seq<char>, g: Seq<Entity>) -> Set<Seq<char>> {
    Set::new(
        |n: Seq<char>|
            exists|i: int, k: int|
                0 <= i < rows.len() && binding_position(rows[i], t) == Some(k) && #[trigger] entity_names(
                    g[rows[i][k].1 as int],
                    t + "."@,
                ).contains(n),
    )
}

/// The columns of one item of a SELECT list: wildcards name their columns in ascending
/// order.
pub open spec fn item_columns(item: Projection, rows: Seq<RowModel>, g: Seq<Entity>) -> Seq<Seq<char>> {
    match item {
        Projection::UnnamedExpr(e) => seq![expr_column(e)],
        Projection::ExprWithAlias(_, a) => seq![a@],
        Projection::Wildcard => sorted_names(wildcard_names(rows, g)),
        Projection::QualifiedWildcard(parts) => sorted_names(qualified_names(rows, table_name(parts@), g)),
    }
}

/// The columns of a SELECT list, item by item.
pub open spec fn projection_columns(proj: Seq<Projection>, rows: Seq<RowModel>, g: Seq<Entity>) -> Seq<Seq<char>>
    decreases proj.len(),
{
    if proj.len() == 0 {
        Seq::empty()
    } else {
        projection_columns(proj.drop_last(), rows, g) + item_columns(proj.last(), rows, g)
    }
}

/// The values of `t.*` in a row: for each column that begins with `t.`, the field of the
/// entity that `t` names (`NULL` where the row has none).
pub open spec fn qualified_values(t: Seq<char>, row: RowModel, g: Seq<Entity>, cols: Seq<Seq<char>>) -> Seq<ValueModel>
    decreases cols.len(),
{
    if cols.len() == 0 {
        Seq::empty()
    } else {
        let rest = qualified_values(t, row, g, cols.drop_last());
        let c = cols.last();
        let p = t + "."@;
        if starts_with(c, p) {
            rest.push(
                match binding_position(row, t) {
                    Some(k) => entity_field(g[row[k].1 as int], c.skip(p.len() as int)),
                    None => null_value(),
                },
            )
        } else {
            rest
        }
    }
}

/// The values of one item of a SELECT list in a row: an expression's value, or for `*`
/// the row's value of each column.
pub open spec fn item_values(item: Projection, row: RowModel, g: Seq<Entity>, cols: Seq<Seq<char>>) -> Option<
    Result<Seq<ValueModel>, ErrorModel>,
> {
    match item {
        Projection::UnnamedExpr(e) => match eval(e, row, g) {
            Some(Ok(v)) => Some(Ok(seq![v])),
            Some(Err(x)) => Some(Err(x)),
            None => None,
        },
        Projection::ExprWithAlias(e, _) => match eval(e, row, g) {
            Some(Ok(v)) => Some(Ok(seq![v])),
            Some(Err(x)) => Some(Err(x)),
            None => None,
        },
        Projection::Wildcard => Some(Ok(cols.map_values(|c: Seq<char>| row_field(c, row, g)))),
        Projection::QualifiedWildcard(parts) => Some(Ok(qualified_values(table_name(parts@), row, g, cols))),
    }
}

/// The values of a SELECT list in a row, item by item; the first item that fails gives its
/// error.
pub open spec fn projected_values(proj: Seq<Projection>, row: RowModel, g: Seq<Entity>, cols: Seq<Seq<char>>) -> Option<
    Result<Seq<ValueModel>, ErrorModel>,
>
    decreases proj.len(),
{
    if proj.len() == 0 {
        Some(Ok(Seq::empty()))
    } else {
        match projected_values(proj.drop_last(), row, g, cols) {
            Some(Ok(vs)) => match item_values(proj.last(), row, g, cols) {
                Some(Ok(ws)) => Some(Ok(vs + ws)),
                other => other,
            },
            other => other,
        }
    }
}

/// The column name of an unnamed expression.
fn expr_column_name(e: &Expression) -> (r: String)
    ensures
        r@ == expr_column(*e),
{
    match e {
        Expression::Identifier(n) => n.clone(),
        Expression::CompoundIdentifier(parts) => join_with_dots(parts),
        Expression::Function(f) => {
            let name = join_with_dots(&f.name);
            concat(name.as_str(), "(...)")
        },
        _ => owned("expr"),
    }
}

/// Adds to a sorted list of names `id` and the entity's field names, each after `prefix`.
fn add_entity_names(v: &mut Vec<String>, e: &Entity, prefix: &str)
    requires
        strictly_sorted(texts(old(v)@)),
    ensures
        strictly_sorted(texts(final(v)@)),
        texts(final(v)@).to_set() == texts(old(v)@).to_set().union(entity_names(*e, prefix@)),
{
    let ghost start = texts(v@).to_set();
    insert_name(v, concat(prefix, "id"));
    let mut f: usize = 0;
    while f < e.fields.len()
        invariant
            f <= e.fields.len(),
            strictly_sorted(texts(v@)),
            texts(v@).to_set() == start.insert(prefix@ + "id"@).union(
                Set::new(|n: Seq<char>| exists|x: int| 0 <= x < f && n == prefix@ + e.fields@[x].name@),
            ),
        decreases e.fields.len() - f,
    {
        let ghost before = texts(v@).to_set();
        insert_name(v, concat(prefix, e.fields[f].name.as_str()));
        assert(texts(v@).to_set() =~= start.insert(prefix@ + "id"@).union(
            Set::new(|n: Seq<char>| exists|x: int| 0 <= x < f + 1 && n == prefix@ + e.fields@[x].name@),
        )) by {
            assert forall|n: Seq<char>| #![auto] texts(v@).to_set().contains(n) implies start.insert(prefix@ + "id"@).union(
                Set::new(|n: Seq<char>| exists|x: int| 0 <= x < f + 1 && n == prefix@ + e.fields@[x].name@),
            ).contains(n) by {
                if n == prefix@ + e.fields@[f as int].name@ {
                    assert(Set::new(|n: Seq<char>| exists|x: int| 0 <= x < f + 1 && n == prefix@ + e.fields@[x].name@).contains(n));
                } else if !start.insert(prefix@ + "id"@).contains(n) {
                    let x = choose|x: int| 0 <= x < f && n == prefix@ + e.fields@[x].name@;
                    assert(Set::new(|n: Seq<char>| exists|x: int| 0 <= x < f + 1 && n == prefix@ + e.fields@[x].name@).contains(n));
                }
            }
        }
        f = f + 1;
    }
    assert(texts(v@).to_set() =~= start.union(entity_names(*e, prefix@)));
}

/// The columns of `*` over the rows.
fn wildcard_columns(rows: &Vec<Vec<Binding>>, graph: &EntityGraph) -> (r: Vec<String>)
    requires
        rows_valid(rows_model(rows@), graph.entities@),
    ensures
        r@.map_values(|s: String| s@) == sorted_names(wildcard_names(rows_model(rows@), graph.entities@)),
{
    let ghost rv = rows_model(rows@);
    let ghost g = graph.entities@;
    let mut v: Vec<String> = Vec::new();
    let mut i: usize = 0;
    assert(texts(v@).to_set() =~= Set::<Seq<char>>::empty());
    while i < rows.len()
        invariant
            i <= rows.len(),
            rv == rows_model(rows@),
            g == graph.entities@,
            rows_valid(rv, g),
            strictly_sorted(texts(v@)),
            texts(v@).to_set() == Set::new(
                |n: Seq<char>|
                    exists|x: int, k: int|
                        0 <= x < i && 0 <= k < rv[x].len() && #[trigger] entity_names(
                            g[rv[x][k].1 as int],
                            Seq::empty(),
                        ).contains(n),
            ),
        decreases rows.len() - i,
    {
        let row = &rows[i];
        let ghost before = texts(v@).to_set();
        assert(rv[i as int] == row_view(row@));
        assert(row_valid(rv[i as int], g));
        let mut k: usize = 0;
        while k < row.len()
            invariant
                k <= row.len(),
                i < rows.len(),
                row == rows@[i as int],
                rv == rows_model(rows@),
                g == graph.entities@,
                rv[i as int] == row_view(row@),
                row_valid(rv[i as int], g),
                strictly_sorted(texts(v@)),
                texts(v@).to_set() == before.union(
                    Set::new(
                        |n: Seq<char>|
                            exists|y: int|
                                0 <= y < k && #[trigger] entity_names(g[rv[i as int][y].1 as int], Seq::empty()).contains(n),
                    ),
                ),
            decreases row.len() - k,
        {
            assert(rv[i as int][k as int].1 < g.len());
            assert(rv[i as int][k as int].1 == row@[k as int].entity);
            let e = &graph.entities[row[k].entity];
            let ghost mid = texts(v@).to_set();
            add_entity_names(&mut v, e, "");
            assert(""@ == Seq::<char>::empty()) by {
                reveal_strlit("");
            }
            assert(texts(v@).to_set() =~= before.union(
                Set::new(
                    |n: Seq<char>|
                        exists|y: int|
                            0 <= y < k + 1 && #[trigger] entity_names(g[rv[i as int][y].1 as int], Seq::empty()).contains(n),
                ),
            )) by {
                assert(entity_names(*e, ""@) == entity_names(g[rv[i as int][k as int].1 as int], Seq::empty()));
            }
            k = k + 1;
        }
        assert(texts(v@).to_set() =~= Set::new(
            |n: Seq<char>|
                exists|x: int, k: int|
                    0 <= x < i + 1 && 0 <= k < rv[x].len() && #[trigger] entity_names(
                        g[rv[x][k].1 as int],
                        Seq::empty(),
                    ).contains(n),
        ));
        i = i + 1;
    }
    assert(texts(v@).to_set() =~= wildcard_names(rv, g));
    proof {
        crate::names::lemma_sorted_names(texts(v@));
    }
    v
}

/// The columns of `t.*` over the rows.
fn qualified_columns(rows: &Vec<Vec<Binding>>, t: &str, graph: &EntityGraph) -> (r: Vec<String>)
    requires
        rows_valid(rows_model(rows@), graph.entities@),
    ensures
        r@.map_values(|s: String| s@) == sorted_names(qualified_names(rows_model(rows@), t@, graph.entities@)),
{
    let ghost rv = rows_model(rows@);
    let ghost g = graph.entities@;
    let prefix = concat(t, ".");
    let mut v: Vec<String> = Vec::new();
    let mut i: usize = 0;
    assert(texts(v@).to_set() =~= Set::<Seq<char>>::empty());
    while i < rows.len()
        invariant
            i <= rows.len(),
            rv == rows_model(rows@),
            g == graph.entities@,
            prefix@ == t@ + "."@,
            rows_valid(rv, g),
            strictly_sorted(texts(v@)),
            texts(v@).to_set() == Set::new(
                |n: Seq<char>|
                    exists|x: int, k: int|
                        0 <= x < i && binding_position(rv[x], t@) == Some(k) && #[trigger] entity_names(
                            g[rv[x][k].1 as int],
                            t@ + "."@,
                        ).contains(n),
            ),
        decreases rows.len() - i,
    {
        let ghost before = texts(v@).to_set();
        assert(rv[i as int] == row_view(rows@[i as int]@));
        assert(row_valid(rv[i as int], g));
        match find_binding(&rows[i], t) {
            Some(k) => {
                assert(rv[i as int][k as int].1 < g.len());
                let e = &graph.entities[rows[i][k].entity];
                add_entity_names(&mut v, e, prefix.as_str());
                assert(texts(v@).to_set() =~= Set::new(
                    |n: Seq<char>|
                        exists|x: int, k: int|
                            0 <= x < i + 1 && binding_position(rv[x], t@) == Some(k) && #[trigger] entity_names(
                                g[rv[x][k].1 as int],
                                t@ + "."@,
                            ).contains(n),
                )) by {
                    assert(entity_names(*e, prefix@) == entity_names(g[rv[i as int][k as int].1 as int], t@ + "."@));
                }
            },
            None => {
                assert(texts(v@).to_set() =~= Set::new(
                    |n: Seq<char>|
                        exists|x: int, k: int|
                            0 <= x < i + 1 && binding_position(rv[x], t@) == Some(k) && #[trigger] entity_names(
                                g[rv[x][k].1 as int],
                                t@ + "."@,
                            ).contains(n),
                ));
            },
        }
        i = i + 1;
    }
    assert(texts(v@).to_set() =~= qualified_names(rv, t@, g));
    proof {
        crate::names::lemma_sorted_names(texts(v@));
    }
    v
}

/// The columns of a SELECT list over the rows.
pub fn build_columns(proj: &Vec<Projection>, rows: &Vec<Vec<Binding>>, graph: &EntityGraph) -> (r: Vec<String>)
    requires
        rows_valid(rows_model(rows@), graph.entities@),
    ensures
        r@.map_values(|s: String| s@) == projection_columns(proj@, rows_model(rows@), graph.entities@),
{
    let ghost rv = rows_model(rows@);
    let ghost g = graph.entities@;
    let mut cols: Vec<String> = Vec::new();
    let mut i: usize = 0;
    assert(proj@.take(0) =~= Seq::<Projection>::empty());
    assert(cols@.map_values(|s: String| s@) =~= Seq::<Seq<char>>::empty());
    while i < proj.len()
        invariant
            i <= proj.len(),
            rv == rows_model(rows@),
            g == graph.entities@,
            rows_valid(rv, g),
            cols@.map_values(|s: String| s@) == projection_columns(proj@.take(i as int), rv, g),
        decreases proj.len() - i,
    {
        assert(proj@.take(i + 1).drop_last() == proj@.take(i as int));
        assert(proj@.take(i + 1).last() == proj@[i as int]);
        let ghost before = cols@.map_values(|s: String| s@);
        let mut more: Vec<String> = match &proj[i] {
            Projection::UnnamedExpr(e) => {
                let mut m = Vec::new();
                m.push(expr_column_name(e));
                m
            },
            Projection::ExprWithAlias(_, a) => {
                let mut m = Vec::new();
                m.push(a.clone());
                m
            },
            Projection::Wildcard => wildcard_columns(rows, graph),
            Projection::QualifiedWildcard(parts) => {
                let t = join_with_dots(parts);
                qualified_columns(rows, t.as_str(), graph)
            },
        };
        assert(more@.map_values(|s: String| s@) =~= item_columns(proj@[i as int], rv, g));
        let ghost added = more@.map_values(|s: String| s@);
        cols.append(&mut more);
        assert(cols@.map_values(|s: String| s@) =~= before + added);
        i = i + 1;
    }
    assert(proj@.take(proj.len() as int) == proj@);
    cols
}

/// The text of a column after a prefix of the given length.
fn text_after(c: &str, n: usize) -> (r: String)
    requires
        n <= c@.len(),
    ensures
        r@ == c@.skip(n as int),
{
    let cs = chars_of(c);
    let mut rest: Vec<char> = Vec::new();
    let mut i: usize = n;
    while i < cs.len()
        invariant
            n <= i <= cs.len(),
            cs@ == c@,
            rest@ == cs@.subrange(n as int, i as int),
        decreases cs.len() - i,
    {
        rest.push(cs[i]);
        i = i + 1;
    }
    string_of(&rest)
}

/// The values of `t.*` in a row.
fn qualified_row_values(t: &str, row: &Vec<Binding>, graph: &EntityGraph, cols: &Vec<String>) -> (r: Vec<FieldValue>)
    requires
        row_valid(row_view(row@), graph.entities@),
    ensures
        r@.map_values(|v: FieldValue| v@) == qualified_values(t@, row_view(row@), graph.entities@, texts(cols@)),
{
    let ghost cv = texts(cols@);
    let ghost rw = row_view(row@);
    let ghost g = graph.entities@;
    let prefix = concat(t, ".");
    let pc = chars_of(prefix.as_str());
    let at = find_binding(row, t);
    let mut vals: Vec<FieldValue> = Vec::new();
    let mut i: usize = 0;
    assert(cv.take(0) =~= Seq::<Seq<char>>::empty());
    assert(vals@.map_values(|v: FieldValue| v@) =~= Seq::<ValueModel>::empty());
    while i < cols.len()
        invariant
            i <= cols.len(),
            cv == texts(cols@),
            rw == row_view(row@),
            g == graph.entities@,
            row_valid(rw, g),
            pc@ == t@ + "."@,
            at matches Some(k) ==> k < row.len() && binding_position(rw, t@) == Some(k as int),
            at is None ==> binding_position(rw, t@) is None,
            vals@.map_values(|v: FieldValue| v@) == qualified_values(t@, rw, g, cv.take(i as int)),
        decreases cols.len() - i,
    {
        assert(cv.take(i + 1).drop_last() == cv.take(i as int));
        assert(cv.take(i + 1).last() == cols@[i as int]@);
        let cc = chars_of(cols[i].as_str());
        let ghost before = vals@.map_values(|v: FieldValue| v@);
        if crate::like::seq_starts_with(&cc, &pc) {
            let v = match at {
                Some(k) => {
                    assert(rw[k as int].1 < g.len());
                    let name = text_after(cols[i].as_str(), pc.len());
                    entity_field_value(&graph.entities[row[k].entity], name.as_str())
                },
                None => null_field(),
            };
            vals.push(v);
            assert(vals@.map_values(|v: FieldValue| v@) =~= before.push(v@));
        }
        i = i + 1;
    }
    assert(cv.take(cols.len() as int) == cv);
    vals
}

/// The values of a SELECT list in a row.
pub fn project_row(proj: &Vec<Projection>, row: &Vec<Binding>, graph: &EntityGraph, cols: &Vec<String>) -> (res: QueryResult<Vec<FieldValue>>)
    requires
        row_valid(row_view(row@), graph.entities@),
    ensures
        projected_values(proj@, row_view(row@), graph.entities@, texts(cols@)) matches Some(x) ==> match res {
            Ok(v) => x == Ok::<Seq<ValueModel>, ErrorModel>(v@.map_values(|f: FieldValue| f@)),
            Err(e) => x == Err::<Seq<ValueModel>, ErrorModel>(e@),
        },
{
    let ghost cv = texts(cols@);
    let ghost rw = row_view(row@);
    let ghost g = graph.entities@;
    let mut vals: Vec<FieldValue> = Vec::new();
    let mut i: usize = 0;
    assert(proj@.take(0) =~= Seq::<Projection>::empty());
    assert(vals@.map_values(|f: FieldValue| f@) =~= Seq::<ValueModel>::empty());
    while i < proj.len()
        invariant
            i <= proj.len(),
            cv == texts(cols@),
            rw == row_view(row@),
            g == graph.entities@,
            row_valid(rw, g),
            projected_values(proj@, rw, g, cv) is Some ==> projected_values(proj@.take(i as int), rw, g, cv) == Some(
                Ok::<Seq<ValueModel>, ErrorModel>(vals@.map_values(|f: FieldValue| f@)),
            ),
        decreases proj.len() - i,
    {
        assert(proj@.take(i + 1).drop_last() == proj@.take(i as int));
        assert(proj@.take(i + 1).last() == proj@[i as int]);
        let ghost before = vals@.map_values(|f: FieldValue| f@);
        proof {
            if !(projected_values(proj@.take(i + 1), rw, g, cv) matches Some(Ok(_))) {
                lemma_projected_prefix(proj@, rw, g, cv, i + 1);
            }
        }
        match &proj[i] {
            Projection::UnnamedExpr(e) => {
                let v = match evaluate(e, row, graph) {
                    Ok(v) => v,
                    Err(x) => {
                        return Err(x);
                    },
                };
                vals.push(v);
                assert(vals@.map_values(|f: FieldValue| f@) =~= before + seq![v@]);
            },
            Projection::ExprWithAlias(e, _) => {
                let v = match evaluate(e, row, graph) {
                    Ok(v) => v,
                    Err(x) => {
                        return Err(x);
                    },
                };
                vals.push(v);
                assert(vals@.map_values(|f: FieldValue| f@) =~= before + seq![v@]);
            },
            Projection::Wildcard => {
                let mut k: usize = 0;
                while k < cols.len()
                    invariant
                        k <= cols.len(),
                        cv == texts(cols@),
                        rw == row_view(row@),
                        g == graph.entities@,
                        row_valid(rw, g),
                        vals@.map_values(|f: FieldValue| f@) == before + cv.take(k as int).map_values(
                            |c: Seq<char>| row_field(c, rw, g),
                        ),
                    decreases cols.len() - k,
                {
                    let ghost mid = vals@.map_values(|f: FieldValue| f@);
                    let v = row_field_value(cols[k].as_str(), row, graph);
                    vals.push(v);
                    assert(cv.take(k + 1).map_values(|c: Seq<char>| row_field(c, rw, g)) =~= cv.take(
                        k as int,
                    ).map_values(|c: Seq<char>| row_field(c, rw, g)).push(row_field(cv[k as int], rw, g)));
                    assert(vals@.map_values(|f: FieldValue| f@) =~= mid.push(v@));
                    k = k + 1;
                }
                assert(cv.take(cols.len() as int) == cv);
            },
            Projection::QualifiedWildcard(parts) => {
                let t = join_with_dots(parts);
                let mut more = qualified_row_values(t.as_str(), row, graph, cols);
                let ghost added = more@.map_values(|f: FieldValue| f@);
                vals.append(&mut more);
                assert(vals@.map_values(|f: FieldValue| f@) =~= before + added);
            },
        }
        i = i + 1;
    }
    assert(proj@.take(proj.len() as int) == proj@);
    Ok(vals)
}

proof fn lemma_projected_prefix(proj: Seq<Projection>, row: RowModel, g: Seq<Entity>, cols: Seq<Seq<char>>, k: int)
    requires
        0 <= k <= proj.len(),
        !(projected_values(proj.take(k), row, g, cols) matches Some(Ok(_))),
    ensures
        projected_values(proj, row, g, cols) == projected_values(proj.take(k), row, g, cols),
    decreases proj.len() - k,
{
    if k < proj.len() {
        assert(proj.drop_last().take(k) == proj.take(k));
        lemma_projected_prefix(proj.drop_last(), row, g, cols, k);
    } else {
        assert(proj.take(k) == proj);
    }
}

} // verus!
