use vstd::prelude::*;
use crate::ast::{Expression, JoinCondition};
use crate::engine::{
    combine, full_join_rows, insert_binding, join_rows, join_test, lemma_binding_position, matches_of, unmatched,
    RowModel,
};
use crate::error::ErrorModel;
use crate::eval::{
    binding_position, eval, in_list, like_value, row_field, row_field_from, texts, truthy, Eval,
};
use crate::graph::field_value;
use crate::text::unicode_lowercase;
use crate::value::scalar_text;
use crate::graph::Entity;
use crate::order::skip_take;
use crate::select::filtered;
use crate::value::ValueModel;

verus! {

/// Whether a left row and a right row meet a join condition.
pub open spec fn hit(l: RowModel, r: RowModel, c: JoinCondition, g: Seq<Entity>) -> bool {
    join_test(l, r, c, g) == Some(Ok::<bool, ErrorModel>(true))
}

/// The number of rows of `rs` that a row meets the condition with.
pub open spec fn hits(l: RowModel, rs: Seq<RowModel>, c: JoinCondition, g: Seq<Entity>) -> nat
    decreases rs.len(),
{
    if rs.len() == 0 {
        0
    } else {
        hits(l, rs.drop_last(), c, g) + if hit(l, rs.last(), c, g) {
            1nat
        } else {
            0nat
        }
    }
}

/// The number of left rows that meet the condition with no right row.
pub open spec fn lonely(ls: Seq<RowModel>, rs: Seq<RowModel>, c: JoinCondition, g: Seq<Entity>) -> nat
    decreases ls.len(),
{
    if ls.len() == 0 {
        0
    } else {
        lonely(ls.drop_last(), rs, c, g) + if hits(ls.last(), rs, c, g) == 0 {
            1nat
        } else {
            0nat
        }
    }
}

/// The number of pairs of a left row and a right row that meet the condition.
pub open spec fn pairs(ls: Seq<RowModel>, rs: Seq<RowModel>, c: JoinCondition, g: Seq<Entity>) -> nat
    decreases ls.len(),
{
    if ls.len() == 0 {
        0
    } else {
        pairs(ls.drop_last(), rs, c, g) + hits(ls.last(), rs, c, g)
    }
}

/// The joined rows of a row are as many as the rows it meets the condition with.
proof fn lemma_matches_len(l: RowModel, rs: Seq<RowModel>, c: JoinCondition, g: Seq<Entity>)
    requires
        matches_of(l, rs, c, g) matches Some(Ok(_)),
    ensures
        matches_of(l, rs, c, g) matches Some(Ok(m)) && m.len() == hits(l, rs, c, g),
    decreases rs.len(),
{
    if rs.len() > 0 {
        lemma_matches_len(l, rs.drop_last(), c, g);
    }
}

/// An inner join gives one row for each pair of rows that meet the condition; a left
/// outer join gives the same rows and one more for each left row that meets it with no
/// right row, so it never gives fewer. Both fail alike.
pub proof fn law_left_join_count(ls: Seq<RowModel>, rs: Seq<RowModel>, c: JoinCondition, g: Seq<Entity>)
    ensures
        match (join_rows(ls, rs, c, g, false), join_rows(ls, rs, c, g, true)) {
            (Some(Ok(inner)), Some(Ok(left))) => inner.len() == pairs(ls, rs, c, g) && left.len() == inner.len()
                + lonely(ls, rs, c, g) && left.len() >= inner.len(),
            (Some(Ok(_)), _) => false,
            (_, Some(Ok(_))) => false,
            (a, b) => a == b,
        },
    decreases ls.len(),
{
    if ls.len() > 0 {
        law_left_join_count(ls.drop_last(), rs, c, g);
        if matches_of(ls.last(), rs, c, g) matches Some(Ok(_)) {
            lemma_matches_len(ls.last(), rs, c, g);
        }
    }
}

/// A full outer join gives the rows of the left outer join, then each right row that
/// meets the condition with no left row; so it never gives fewer rows than the left outer
/// join.
pub proof fn law_full_join_extends_left(ls: Seq<RowModel>, rs: Seq<RowModel>, c: JoinCondition, g: Seq<Entity>)
    ensures
        match (full_join_rows(ls, rs, c, g), join_rows(ls, rs, c, g, true)) {
            (Some(Ok(full)), Some(Ok(left))) => full == left + unmatched(ls, rs, c, g) && full.len() >= left.len(),
            (Some(Ok(_)), _) => false,
            (_, Some(Ok(_))) => false,
            (a, b) => a == b,
        },
{
}

/// Whether the condition holds of a row of the left and a row of the right.
pub open spec fn truthy_on(cond: Expression, r: RowModel, g: Seq<Entity>) -> bool {
    eval(cond, r, g) matches Some(Ok(v)) && truthy(v)
}

/// The test of a condition on a row.
pub open spec fn holds_on(cond: Expression, g: Seq<Entity>) -> spec_fn(RowModel) -> bool {
    |r: RowModel| truthy_on(cond, r, g)
}

/// Whether the condition can be evaluated on every row without an error or a panic.
pub open spec fn evaluates_on(cond: Expression, rows: Seq<RowModel>, g: Seq<Entity>) -> bool {
    forall|i: int| 0 <= i < rows.len() ==> (#[trigger] eval(cond, rows[i], g)) matches Some(Ok(_))
}

/// WHERE keeps exactly the rows on which its condition is true, in their order.
pub proof fn law_filter_keeps_true_rows(rows: Seq<RowModel>, cond: Expression, g: Seq<Entity>)
    requires
        evaluates_on(cond, rows, g),
    ensures
        filtered(rows, cond, g) == Some(
            Ok::<Seq<RowModel>, ErrorModel>(rows.filter(holds_on(cond, g))),
        ),
    decreases rows.len(),
{
    reveal(Seq::filter);
    if rows.len() > 0 {
        assert(evaluates_on(cond, rows.drop_last(), g)) by {
            assert forall|i: int| 0 <= i < rows.drop_last().len() implies (#[trigger] eval(
                cond,
                rows.drop_last()[i],
                g,
            )) matches Some(Ok(_)) by {
                assert(rows.drop_last()[i] == rows[i]);
            }
        }
        law_filter_keeps_true_rows(rows.drop_last(), cond, g);
        assert(eval(cond, rows[rows.len() - 1], g) matches Some(Ok(_)));
        assert(holds_on(cond, g)(rows.last()) == truthy_on(cond, rows.last(), g));
        let sub = rows.drop_last().filter(holds_on(cond, g));
        assert(rows.filter(holds_on(cond, g)) == (if holds_on(cond, g)(rows.last()) {
            sub.push(rows.last())
        } else {
            sub
        }));
        assert(filtered(rows.drop_last(), cond, g) == Some(Ok::<Seq<RowModel>, ErrorModel>(sub)));
    } else {
        assert(rows =~= Seq::<RowModel>::empty());
    }
}

/// LIMIT `limit` OFFSET `offset` leaves the rows from position `offset` on, at most
/// `limit` of them.
pub proof fn law_window_length(rows: Seq<RowModel>, offset: nat, limit: nat)
    ensures
        skip_take(rows, offset, limit).len() == (if offset >= rows.len() {
            0
        } else if limit < rows.len() - offset {
            limit as int
        } else {
            rows.len() - offset
        }),
        forall|i: int| 0 <= i < skip_take(rows, offset, limit).len() ==> #[trigger] skip_take(rows, offset, limit)[i]
            == rows[offset + i],
{
}

/// NOT LIKE (or NOT ILIKE) gives the opposite of LIKE, and fails alike.
pub proof fn law_not_like(t: ValueModel, p: ValueModel, ci: bool)
    ensures
        like_value(t, p, false, ci) is Some,
        match (like_value(t, p, false, ci), like_value(t, p, true, ci)) {
            (Some(Ok(ValueModel::Bool(a))), Some(Ok(ValueModel::Bool(b)))) => b == !a,
            (Some(Ok(_)), _) => false,
            (_, Some(Ok(_))) => false,
            (a, b) => a == b,
        },
{
}

/// The number of rows of `ls` that meet the condition with a row.
pub open spec fn hits_by(ls: Seq<RowModel>, r: RowModel, c: JoinCondition, g: Seq<Entity>) -> nat
    decreases ls.len(),
{
    if ls.len() == 0 {
        0
    } else {
        hits_by(ls.drop_last(), r, c, g) + if hit(ls.last(), r, c, g) {
            1nat
        } else {
            0nat
        }
    }
}

/// The number of pairs that meet the condition, counted right row by right row.
pub open spec fn pairs_by(ls: Seq<RowModel>, rs: Seq<RowModel>, c: JoinCondition, g: Seq<Entity>) -> nat
    decreases rs.len(),
{
    if rs.len() == 0 {
        0
    } else {
        pairs_by(ls, rs.drop_last(), c, g) + hits_by(ls, rs.last(), c, g)
    }
}

/// The condition gives the same answer whichever of two rows comes first.
pub open spec fn symmetric(ls: Seq<RowModel>, rs: Seq<RowModel>, c: JoinCondition, g: Seq<Entity>) -> bool {
    forall|i: int, j: int|
        0 <= i < ls.len() && 0 <= j < rs.len() ==> hit(#[trigger] ls[i], #[trigger] rs[j], c, g) == hit(rs[j], ls[i], c, g)
}

proof fn lemma_pairs_by_step(ls: Seq<RowModel>, rs: Seq<RowModel>, c: JoinCondition, g: Seq<Entity>)
    requires
        ls.len() > 0,
    ensures
        pairs_by(ls, rs, c, g) == pairs_by(ls.drop_last(), rs, c, g) + hits(ls.last(), rs, c, g),
    decreases rs.len(),
{
    if rs.len() > 0 {
        lemma_pairs_by_step(ls, rs.drop_last(), c, g);
    }
}

/// Pairs counted left row by left row or right row by right row are as many.
proof fn lemma_pairs_swap(ls: Seq<RowModel>, rs: Seq<RowModel>, c: JoinCondition, g: Seq<Entity>)
    ensures
        pairs(ls, rs, c, g) == pairs_by(ls, rs, c, g),
    decreases ls.len(),
{
    if ls.len() > 0 {
        lemma_pairs_swap(ls.drop_last(), rs, c, g);
        lemma_pairs_by_step(ls, rs, c, g);
    } else {
        lemma_pairs_by_empty(ls, rs, c, g);
    }
}

proof fn lemma_pairs_by_empty(ls: Seq<RowModel>, rs: Seq<RowModel>, c: JoinCondition, g: Seq<Entity>)
    requires
        ls.len() == 0,
    ensures
        pairs_by(ls, rs, c, g) == 0,
    decreases rs.len(),
{
    if rs.len() > 0 {
        lemma_pairs_by_empty(ls, rs.drop_last(), c, g);
    }
}

/// With a symmetric condition, a right row meets as many left rows as meet it.
proof fn lemma_hits_symmetric(ls: Seq<RowModel>, r: RowModel, c: JoinCondition, g: Seq<Entity>)
    requires
        forall|i: int| 0 <= i < ls.len() ==> hit(#[trigger] ls[i], r, c, g) == hit(r, ls[i], c, g),
    ensures
        hits(r, ls, c, g) == hits_by(ls, r, c, g),
    decreases ls.len(),
{
    if ls.len() > 0 {
        assert(hit(ls[ls.len() - 1], r, c, g) == hit(r, ls[ls.len() - 1], c, g));
        lemma_hits_symmetric(ls.drop_last(), r, c, g);
    }
}

/// With a symmetric condition, the pairs of a right join are the pairs of the left join.
proof fn lemma_pairs_symmetric(ls: Seq<RowModel>, rs: Seq<RowModel>, c: JoinCondition, g: Seq<Entity>)
    requires
        symmetric(ls, rs, c, g),
    ensures
        pairs(rs, ls, c, g) == pairs_by(ls, rs, c, g),
    decreases rs.len(),
{
    if rs.len() > 0 {
        let r = rs.last();
        assert forall|i: int| 0 <= i < ls.len() implies hit(#[trigger] ls[i], r, c, g) == hit(r, ls[i], c, g) by {
            assert(hit(ls[i], rs[rs.len() - 1], c, g) == hit(rs[rs.len() - 1], ls[i], c, g));
        }
        lemma_hits_symmetric(ls, r, c, g);
        assert(symmetric(ls, rs.drop_last(), c, g)) by {
            assert forall|i: int, j: int| 0 <= i < ls.len() && 0 <= j < rs.drop_last().len() implies hit(
                #[trigger] ls[i],
                #[trigger] rs.drop_last()[j],
                c,
                g,
            ) == hit(rs.drop_last()[j], ls[i], c, g) by {
                assert(rs.drop_last()[j] == rs[j]);
            }
        }
        lemma_pairs_symmetric(ls, rs.drop_last(), c, g);
    }
}

/// A right row meets some left row exactly when some left row meets it.
proof fn lemma_hits_by_match(ls: Seq<RowModel>, r: RowModel, c: JoinCondition, g: Seq<Entity>)
    ensures
        (hits_by(ls, r, c, g) > 0) == crate::engine::has_match(ls, r, c, g),
    decreases ls.len(),
{
    if ls.len() > 0 {
        lemma_hits_by_match(ls.drop_last(), r, c, g);
        let l = ls.drop_last();
        if crate::engine::has_match(l, r, c, g) {
            let i = choose|i: int| 0 <= i < l.len() && join_test(l[i], r, c, g) == Some(Ok::<bool, ErrorModel>(true));
            assert(ls[i] == l[i]);
        }
        if crate::engine::has_match(ls, r, c, g) {
            let i = choose|i: int| 0 <= i < ls.len() && join_test(ls[i], r, c, g) == Some(Ok::<bool, ErrorModel>(true));
            if i < ls.len() - 1 {
                assert(l[i] == ls[i]);
            }
        }
    }
}

/// With a symmetric condition, the right rows that meet no left row are the right rows
/// without a match.
proof fn lemma_unmatched_len(ls: Seq<RowModel>, rs: Seq<RowModel>, c: JoinCondition, g: Seq<Entity>)
    requires
        symmetric(ls, rs, c, g),
    ensures
        unmatched(ls, rs, c, g).len() == lonely(rs, ls, c, g),
    decreases rs.len(),
{
    if rs.len() > 0 {
        let r = rs.last();
        assert forall|i: int| 0 <= i < ls.len() implies hit(#[trigger] ls[i], r, c, g) == hit(r, ls[i], c, g) by {
            assert(hit(ls[i], rs[rs.len() - 1], c, g) == hit(rs[rs.len() - 1], ls[i], c, g));
        }
        lemma_hits_symmetric(ls, r, c, g);
        lemma_hits_by_match(ls, r, c, g);
        assert(symmetric(ls, rs.drop_last(), c, g)) by {
            assert forall|i: int, j: int| 0 <= i < ls.len() && 0 <= j < rs.drop_last().len() implies hit(
                #[trigger] ls[i],
                #[trigger] rs.drop_last()[j],
                c,
                g,
            ) == hit(rs.drop_last()[j], ls[i], c, g) by {
                assert(rs.drop_last()[j] == rs[j]);
            }
        }
        lemma_unmatched_len(ls, rs.drop_last(), c, g);
    }
}

/// Where the join condition gives the same answer whichever row comes first (as USING,
/// NATURAL and no condition do), a right outer join gives at least as many rows as the
/// inner join, and a full outer join at least as many as the right outer join: one row
/// more for each left row that meets the condition with no right row.
pub proof fn law_right_and_full_join_counts(ls: Seq<RowModel>, rs: Seq<RowModel>, c: JoinCondition, g: Seq<Entity>)
    requires
        symmetric(ls, rs, c, g),
    ensures
        match (join_rows(ls, rs, c, g, false), join_rows(rs, ls, c, g, true), full_join_rows(ls, rs, c, g)) {
            (Some(Ok(inner)), Some(Ok(right)), Some(Ok(full))) => right.len() >= inner.len() && full.len()
                == right.len() + lonely(ls, rs, c, g) && full.len() >= right.len(),
            _ => true,
        },
{
    law_left_join_count(ls, rs, c, g);
    law_left_join_count(rs, ls, c, g);
    law_full_join_extends_left(ls, rs, c, g);
    lemma_pairs_swap(ls, rs, c, g);
    lemma_pairs_symmetric(ls, rs, c, g);
    lemma_unmatched_len(ls, rs, c, g);
}

proof fn lemma_using_match_flip(l: RowModel, r: RowModel, cols: Seq<Seq<char>>, g: Seq<Entity>, k: int)
    ensures
        crate::engine::using_match(l, r, cols, g, k) == crate::engine::using_match(r, l, cols, g, k),
    decreases cols.len() - k,
{
    if 0 <= k < cols.len() {
        crate::value::lemma_compare_values_flip(
            crate::eval::row_field(cols[k], l, g),
            crate::eval::row_field(cols[k], r, g),
        );
        lemma_using_match_flip(l, r, cols, g, k + 1);
    }
}

/// USING, NATURAL and a missing condition give the same answer whichever row comes first.
pub proof fn law_non_on_conditions_symmetric(ls: Seq<RowModel>, rs: Seq<RowModel>, c: JoinCondition, g: Seq<Entity>)
    requires
        !(c is On),
    ensures
        symmetric(ls, rs, c, g),
{
    assert forall|i: int, j: int| 0 <= i < ls.len() && 0 <= j < rs.len() implies hit(
        #[trigger] ls[i],
        #[trigger] rs[j],
        c,
        g,
    ) == hit(rs[j], ls[i], c, g) by {
        match c {
            JoinCondition::Using(cols) => lemma_using_match_flip(ls[i], rs[j], crate::eval::texts(cols@), g, 0),
            _ => {},
        }
    }
}

/// Comparisons read the other way round agree: `a = b` as `b = a`, `a <> b` as `b <> a`,
/// `a < b` as `b > a`, and `a <= b` as `b >= a`.
pub proof fn law_comparison_converse(a: ValueModel, b: ValueModel)
    ensures
        crate::eval::binary_value(a, crate::ast::BinaryOp::Eq, b) == crate::eval::binary_value(b, crate::ast::BinaryOp::Eq, a),
        crate::eval::binary_value(a, crate::ast::BinaryOp::NotEq, b) == crate::eval::binary_value(
            b,
            crate::ast::BinaryOp::NotEq,
            a,
        ),
        crate::eval::binary_value(a, crate::ast::BinaryOp::Lt, b) == crate::eval::binary_value(b, crate::ast::BinaryOp::Gt, a),
        crate::eval::binary_value(a, crate::ast::BinaryOp::LtEq, b) == crate::eval::binary_value(
            b,
            crate::ast::BinaryOp::GtEq,
            a,
        ),
{
    crate::value::lemma_compare_values_flip(a, b);
}

/// `x NOT IN (...)` gives the opposite of `x IN (...)`, and fails alike.
pub proof fn law_not_in(x: Box<Expression>, list: Vec<Expression>, row: RowModel, g: Seq<Entity>)
    ensures
        match (eval(Expression::InList(x, list, false), row, g), eval(Expression::InList(x, list, true), row, g)) {
            (Some(Ok(ValueModel::Bool(a))), Some(Ok(ValueModel::Bool(b)))) => b == !a,
            (Some(Ok(_)), _) => false,
            (_, Some(Ok(_))) => false,
            (a, b) => a == b,
        },
{
}

/// `x IS NOT NULL` gives the opposite of `x IS NULL`, and fails alike.
pub proof fn law_is_not_null(x: Box<Expression>, row: RowModel, g: Seq<Entity>)
    ensures
        match (eval(Expression::IsNull(x), row, g), eval(Expression::IsNotNull(x), row, g)) {
            (Some(Ok(ValueModel::Bool(a))), Some(Ok(ValueModel::Bool(b)))) => b == !a,
            (Some(Ok(_)), _) => false,
            (_, Some(Ok(_))) => false,
            (a, b) => a == b,
        },
{
}


/// The bindings of a row have distinct names.
pub open spec fn distinct_aliases(row: RowModel) -> bool {
    forall|i: int, j: int| 0 <= i < j < row.len() ==> #[trigger] row[i].0 != #[trigger] row[j].0
}

/// Two rows hold the same bindings.
pub open spec fn same_bindings(a: RowModel, b: RowModel) -> bool {
    forall|x: (Seq<char>, nat)| #[trigger] a.contains(x) <==> b.contains(x)
}

/// The entity of a binding has a field of the given name.
pub open spec fn holds_field(b: (Seq<char>, nat), name: Seq<char>, g: Seq<Entity>) -> bool {
    field_value(g[b.1 as int], name) is Some
}

/// Exactly one binding of the row (the one at `k`) has a field of the given name.
pub open spec fn sole_holder(row: RowModel, name: Seq<char>, g: Seq<Entity>, k: int) -> bool {
    &&& 0 <= k < row.len()
    &&& holds_field(row[k], name, g)
    &&& forall|j: int| 0 <= j < row.len() && holds_field(#[trigger] row[j], name, g) ==> row[j] == row[k]
}

/// The name is a field of one binding of the row only.
pub open spec fn held_once(row: RowModel, name: Seq<char>, g: Seq<Entity>) -> bool {
    exists|k: int| sole_holder(row, name, g, k)
}

/// Every name that the expression reads from a row, other than through a binding's own
/// name, is a field of one binding of the row only (and is not `id`, which reads the
/// first binding); the expression calls no function.
pub open spec fn order_free(e: Expression, row: RowModel, g: Seq<Entity>) -> bool
    decreases e, 0int,
{
    match e {
        Expression::Identifier(name) => name@ != "id"@ && held_once(row, name@, g),
        Expression::CompoundIdentifier(parts) => {
            let p = texts(parts@);
            if p.len() == 1 {
                p[0] != "id"@ && held_once(row, p[0], g)
            } else if p.len() == 2 {
                binding_position(row, p[0]) is Some || (p[1] != "id"@ && held_once(row, p[1], g))
            } else {
                true
            }
        },
        Expression::Value(_) => true,
        Expression::BinaryOp(l, _, r) => order_free(*l, row, g) && order_free(*r, row, g),
        Expression::UnaryOp(_, x) => order_free(*x, row, g),
        Expression::Function(_) => false,
        Expression::Nested(x) => order_free(*x, row, g),
        Expression::IsNull(x) => order_free(*x, row, g),
        Expression::IsNotNull(x) => order_free(*x, row, g),
        Expression::InList(x, list, _) => order_free(*x, row, g) && list_order_free(list@, 0, row, g),
        Expression::Like(x, p, _, _) => order_free(*x, row, g) && order_free(*p, row, g),
        Expression::Unsupported(_) => true,
    }
}

/// Every item of `list[i..]` is order free.
pub open spec fn list_order_free(list: Seq<Expression>, i: int, row: RowModel, g: Seq<Entity>) -> bool
    decreases list, list.len() - i,
{
    if i < 0 || i >= list.len() {
        true
    } else {
        order_free(list[i], row, g) && list_order_free(list, i + 1, row, g)
    }
}

/// With one holder of a name, a row's field of that name is the holder's.
proof fn lemma_sole_holder_field(row: RowModel, name: Seq<char>, g: Seq<Entity>, k: int, i: int)
    requires
        sole_holder(row, name, g, k),
        0 <= i <= k,
    ensures
        row_field_from(name, row, g, i) == field_value(g[row[k].1 as int], name).unwrap(),
    decreases k - i,
{
    if !holds_field(row[i], name, g) {
        lemma_sole_holder_field(row, name, g, k, i + 1);
    }
}

/// Rows of the same bindings, with distinct names, agree on a field held once.
proof fn lemma_held_once_field(r0: RowModel, r1: RowModel, name: Seq<char>, g: Seq<Entity>)
    requires
        held_once(r0, name, g),
        same_bindings(r0, r1),
    ensures
        row_field_from(name, r0, g, 0) == row_field_from(name, r1, g, 0),
{
    let k = choose|k: int| sole_holder(r0, name, g, k);
    let b = r0[k];
    assert(r0.contains(b));
    assert(r1.contains(b));
    let k1 = choose|j: int| 0 <= j < r1.len() && r1[j] == b;
    assert forall|j: int| 0 <= j < r1.len() && holds_field(#[trigger] r1[j], name, g) implies r1[j] == r1[k1] by {
        assert(r1.contains(r1[j]));
        assert(r0.contains(r1[j]));
        let m = choose|m: int| 0 <= m < r0.len() && r0[m] == r1[j];
        assert(holds_field(r0[m], name, g));
    }
    assert(sole_holder(r1, name, g, k1));
    lemma_sole_holder_field(r0, name, g, k, 0);
    lemma_sole_holder_field(r1, name, g, k1, 0);
}

/// Rows of the same bindings, with distinct names, find the same binding by name.
proof fn lemma_same_binding_found(r0: RowModel, r1: RowModel, alias: Seq<char>)
    requires
        same_bindings(r0, r1),
        distinct_aliases(r0),
        distinct_aliases(r1),
    ensures
        binding_position(r0, alias) is Some <==> binding_position(r1, alias) is Some,
        binding_position(r0, alias) matches Some(i) ==> binding_position(r1, alias) matches Some(j) && r1[j]
            == r0[i],
{
    lemma_binding_position(r0, alias);
    lemma_binding_position(r1, alias);
    match binding_position(r0, alias) {
        Some(i) => {
            assert(r0.contains(r0[i]));
            assert(r1.contains(r0[i]));
            let j = choose|j: int| 0 <= j < r1.len() && r1[j] == r0[i];
            assert(r1[j].0 == alias);
            match binding_position(r1, alias) {
                Some(j2) => {
                    if j2 != j {
                        if j2 < j {
                            assert(r1[j2].0 != r1[j].0);
                        } else {
                            assert(r1[j].0 != r1[j2].0);
                        }
                    }
                },
                None => {},
            }
        },
        None => {
            match binding_position(r1, alias) {
                Some(j) => {
                    assert(r1.contains(r1[j]));
                    assert(r0.contains(r1[j]));
                    let m = choose|m: int| 0 <= m < r0.len() && r0[m] == r1[j];
                    assert(r0[m].0 == alias);
                },
                None => {},
            }
        },
    }
}

/// Rows of the same bindings agree on a name held once (other than `id`).
proof fn lemma_row_field_agree(r0: RowModel, r1: RowModel, r2: RowModel, name: Seq<char>, g: Seq<Entity>)
    requires
        name != "id"@,
        held_once(r0, name, g),
        same_bindings(r0, r1),
        same_bindings(r0, r2),
    ensures
        row_field(name, r1, g) == row_field(name, r2, g),
{
    lemma_held_once_field(r0, r1, name, g);
    lemma_held_once_field(r0, r2, name, g);
}

/// An order-free expression has the same value on rows of the same bindings.
proof fn lemma_order_free_eval(e: Expression, r0: RowModel, r1: RowModel, r2: RowModel, g: Seq<Entity>)
    requires
        order_free(e, r0, g),
        same_bindings(r0, r1),
        same_bindings(r0, r2),
        distinct_aliases(r0),
        distinct_aliases(r1),
        distinct_aliases(r2),
    ensures
        eval(e, r1, g) == eval(e, r2, g),
    decreases e, 0int,
{
    match e {
        Expression::Identifier(name) => {
            lemma_row_field_agree(r0, r1, r2, name@, g);
        },
        Expression::CompoundIdentifier(parts) => {
            let p = texts(parts@);
            if p.len() == 1 {
                lemma_row_field_agree(r0, r1, r2, p[0], g);
            } else if p.len() >= 2 {
                lemma_same_binding_found(r0, r1, p[0]);
                lemma_same_binding_found(r0, r2, p[0]);
                if p.len() == 2 && binding_position(r0, p[0]) is None {
                    lemma_row_field_agree(r0, r1, r2, p[1], g);
                }
            }
        },
        Expression::BinaryOp(l, _, r) => {
            lemma_order_free_eval(*l, r0, r1, r2, g);
            lemma_order_free_eval(*r, r0, r1, r2, g);
        },
        Expression::UnaryOp(_, x) => lemma_order_free_eval(*x, r0, r1, r2, g),
        Expression::Nested(x) => lemma_order_free_eval(*x, r0, r1, r2, g),
        Expression::IsNull(x) => lemma_order_free_eval(*x, r0, r1, r2, g),
        Expression::IsNotNull(x) => lemma_order_free_eval(*x, r0, r1, r2, g),
        Expression::InList(x, list, _) => {
            lemma_order_free_eval(*x, r0, r1, r2, g);
            match eval(*x, r1, g) {
                Some(Ok(t)) => lemma_order_free_list(t, list@, 0, r0, r1, r2, g),
                _ => {},
            }
        },
        Expression::Like(x, p, _, _) => {
            lemma_order_free_eval(*x, r0, r1, r2, g);
            lemma_order_free_eval(*p, r0, r1, r2, g);
        },
        _ => {},
    }
}

/// An order-free list gives the same membership on rows of the same bindings.
proof fn lemma_order_free_list(
    t: ValueModel,
    list: Seq<Expression>,
    i: int,
    r0: RowModel,
    r1: RowModel,
    r2: RowModel,
    g: Seq<Entity>,
)
    requires
        list_order_free(list, i, r0, g),
        same_bindings(r0, r1),
        same_bindings(r0, r2),
        distinct_aliases(r0),
        distinct_aliases(r1),
        distinct_aliases(r2),
    ensures
        in_list(t, list, i, r1, g) == in_list(t, list, i, r2, g),
    decreases list, list.len() - i,
{
    if 0 <= i < list.len() {
        lemma_order_free_eval(list[i], r0, r1, r2, g);
        lemma_order_free_list(t, list, i + 1, r0, r1, r2, g);
    }
}

/// Joining two rows whose bindings have distinct names keeps every binding of both, and
/// the names stay distinct.
proof fn lemma_combine_bindings(l: RowModel, r: RowModel)
    requires
        distinct_aliases(l + r),
    ensures
        same_bindings(combine(l, r), l + r),
        distinct_aliases(combine(l, r)),
    decreases r.len(),
{
    if r.len() == 0 {
        assert(l + r =~= l);
    } else {
        let rd = r.drop_last();
        let b = r.last();
        assert forall|i: int, j: int| 0 <= i < j < (l + rd).len() implies #[trigger] (l + rd)[i].0 != #[trigger] (l
            + rd)[j].0 by {
            assert((l + rd)[i] == (l + r)[i]);
            assert((l + rd)[j] == (l + r)[j]);
        }
        lemma_combine_bindings(l, rd);
        let c = combine(l, rd);
        assert forall|m: int| 0 <= m < c.len() implies c[m].0 != b.0 by {
            assert(c.contains(c[m]));
            assert((l + rd).contains(c[m]));
            let q = choose|q: int| 0 <= q < (l + rd).len() && (l + rd)[q] == c[m];
            assert((l + r)[q] == c[m]);
            assert((l + r)[(l + r).len() - 1] == b);
        }
        lemma_binding_position(c, b.0);
        assert(insert_binding(c, b) == seq![b] + c);
        assert(combine(l, r) == seq![b] + c);
        assert forall|x: (Seq<char>, nat)| #[trigger] combine(l, r).contains(x) <==> (l + r).contains(x) by {
            if combine(l, r).contains(x) {
                let m = choose|m: int| 0 <= m < combine(l, r).len() && combine(l, r)[m] == x;
                if m == 0 {
                    assert((l + r)[(l + r).len() - 1] == x);
                } else {
                    assert(c[m - 1] == x);
                    assert(c.contains(x));
                    assert((l + rd).contains(x));
                    let q = choose|q: int| 0 <= q < (l + rd).len() && (l + rd)[q] == x;
                    assert((l + r)[q] == x);
                }
            }
            if (l + r).contains(x) {
                let q = choose|q: int| 0 <= q < (l + r).len() && (l + r)[q] == x;
                if q == (l + r).len() - 1 {
                    assert(combine(l, r)[0] == x);
                } else {
                    assert((l + rd)[q] == x);
                    assert((l + rd).contains(x));
                    assert(c.contains(x));
                    let m = choose|m: int| 0 <= m < c.len() && c[m] == x;
                    assert(combine(l, r)[m + 1] == x);
                }
            }
        }
        assert forall|i: int, j: int| 0 <= i < j < combine(l, r).len() implies #[trigger] combine(l, r)[i].0
            != #[trigger] combine(l, r)[j].0 by {
            if i == 0 {
                assert(combine(l, r)[j] == c[j - 1]);
            } else {
                assert(combine(l, r)[i] == c[i - 1]);
                assert(combine(l, r)[j] == c[j - 1]);
            }
        }
    }
}

/// A left row and a right row, their bindings taken together, have distinct names.
proof fn lemma_swap_distinct(l: RowModel, r: RowModel)
    requires
        distinct_aliases(l + r),
    ensures
        distinct_aliases(r + l),
        same_bindings(l + r, r + l),
{
    assert forall|i: int, j: int| 0 <= i < j < (r + l).len() implies #[trigger] (r + l)[i].0 != #[trigger] (r
        + l)[j].0 by {
        let n = l.len() as int;
        let m = r.len() as int;
        let i2 = if i < m { n + i } else { i - m };
        let j2 = if j < m { n + j } else { j - m };
        assert((r + l)[i] == (l + r)[i2]);
        assert((r + l)[j] == (l + r)[j2]);
        if i2 < j2 {
            assert((l + r)[i2].0 != (l + r)[j2].0);
        } else {
            assert((l + r)[j2].0 != (l + r)[i2].0);
        }
    }
    assert forall|x: (Seq<char>, nat)| #[trigger] (l + r).contains(x) <==> (r + l).contains(x) by {
        let n = l.len() as int;
        let m = r.len() as int;
        if (l + r).contains(x) {
            let q = choose|q: int| 0 <= q < (l + r).len() && (l + r)[q] == x;
            let q2 = if q < n { m + q } else { q - n };
            assert((r + l)[q2] == x);
        }
        if (r + l).contains(x) {
            let q = choose|q: int| 0 <= q < (r + l).len() && (r + l)[q] == x;
            let q2 = if q < m { n + q } else { q - m };
            assert((l + r)[q2] == x);
        }
    }
}

/// An ON condition whose names each stand for a field of one binding only, of either
/// row, gives the same answer whichever row comes first, where the bindings of the two
/// rows have distinct names.
pub proof fn law_one_sided_on_symmetric(ls: Seq<RowModel>, rs: Seq<RowModel>, e: Expression, g: Seq<Entity>)
    requires
        forall|i: int, j: int|
            0 <= i < ls.len() && 0 <= j < rs.len() ==> distinct_aliases(#[trigger] ls[i] + #[trigger] rs[j])
                && order_free(e, ls[i] + rs[j], g),
    ensures
        symmetric(ls, rs, JoinCondition::On(e), g),
{
    assert forall|i: int, j: int| 0 <= i < ls.len() && 0 <= j < rs.len() implies hit(
        #[trigger] ls[i],
        #[trigger] rs[j],
        JoinCondition::On(e),
        g,
    ) == hit(rs[j], ls[i], JoinCondition::On(e), g) by {
        let l = ls[i];
        let r = rs[j];
        lemma_swap_distinct(l, r);
        lemma_combine_bindings(l, r);
        lemma_combine_bindings(r, l);
        let r0 = l + r;
        assert(same_bindings(r0, combine(l, r)));
        assert(same_bindings(r0, combine(r, l)));
        lemma_order_free_eval(e, r0, combine(l, r), combine(r, l), g);
    }
}


/// With an ON condition whose names each stand for a field of one binding only, of either
/// row, a right outer join gives at least as many rows as the inner join, and a full outer
/// join at least as many as the right outer join.
pub proof fn law_one_sided_on_join_counts(ls: Seq<RowModel>, rs: Seq<RowModel>, e: Expression, g: Seq<Entity>)
    requires
        forall|i: int, j: int|
            0 <= i < ls.len() && 0 <= j < rs.len() ==> distinct_aliases(#[trigger] ls[i] + #[trigger] rs[j])
                && order_free(e, ls[i] + rs[j], g),
    ensures
        match (
            join_rows(ls, rs, JoinCondition::On(e), g, false),
            join_rows(rs, ls, JoinCondition::On(e), g, true),
            full_join_rows(ls, rs, JoinCondition::On(e), g),
        ) {
            (Some(Ok(inner)), Some(Ok(right)), Some(Ok(full))) => right.len() >= inner.len() && full.len()
                >= right.len(),
            _ => true,
        },
{
    law_one_sided_on_symmetric(ls, rs, e, g);
    law_right_and_full_join_counts(ls, rs, JoinCondition::On(e), g);
}


/// The condition and its opposite can both be evaluated on the row, and the opposite is
/// true exactly where the condition is not.
pub open spec fn opposite_on(c: Expression, n: Expression, r: RowModel, g: Seq<Entity>) -> bool {
    &&& eval(c, r, g) matches Some(Ok(_))
    &&& eval(n, r, g) matches Some(Ok(_))
    &&& truthy_on(n, r, g) == !truthy_on(c, r, g)
}

/// Where a condition and its opposite are opposite on every row, the rows that each
/// keeps are together as many as the rows.
proof fn lemma_opposites_split(rows: Seq<RowModel>, c: Expression, n: Expression, g: Seq<Entity>)
    requires
        forall|i: int| 0 <= i < rows.len() ==> #[trigger] opposite_on(c, n, rows[i], g),
    ensures
        filtered(rows, c, g) matches Some(Ok(a)) && filtered(rows, n, g) matches Some(Ok(b)) && a.len() + b.len()
            == rows.len(),
    decreases rows.len(),
{
    if rows.len() > 0 {
        assert forall|i: int| 0 <= i < rows.drop_last().len() implies #[trigger] opposite_on(
            c,
            n,
            rows.drop_last()[i],
            g,
        ) by {
            assert(rows.drop_last()[i] == rows[i]);
            assert(opposite_on(c, n, rows[i], g));
        }
        lemma_opposites_split(rows.drop_last(), c, n, g);
        assert(opposite_on(c, n, rows[rows.len() - 1], g));
    }
}

/// `x IN (...)` and `x NOT IN (...)` split the rows: where the test can be evaluated on
/// every row, the rows that WHERE keeps with each are together as many as the rows.
pub proof fn law_in_splits_rows(rows: Seq<RowModel>, x: Box<Expression>, list: Vec<Expression>, g: Seq<Entity>)
    requires
        evaluates_on(Expression::InList(x, list, false), rows, g),
    ensures
        filtered(rows, Expression::InList(x, list, false), g) matches Some(Ok(a)) && filtered(
            rows,
            Expression::InList(x, list, true),
            g,
        ) matches Some(Ok(b)) && a.len() + b.len() == rows.len(),
{
    let c = Expression::InList(x, list, false);
    let n = Expression::InList(x, list, true);
    assert forall|i: int| 0 <= i < rows.len() implies #[trigger] opposite_on(c, n, rows[i], g) by {
        assert(eval(c, rows[i], g) matches Some(Ok(_)));
    }
    lemma_opposites_split(rows, c, n, g);
}

/// `x LIKE p` and `x NOT LIKE p` (or `ILIKE` and `NOT ILIKE`) split the rows: where the
/// test can be evaluated on every row, the rows that WHERE keeps with each are together
/// as many as the rows.
pub proof fn law_like_splits_rows(
    rows: Seq<RowModel>,
    x: Box<Expression>,
    p: Box<Expression>,
    ci: bool,
    g: Seq<Entity>,
)
    requires
        evaluates_on(Expression::Like(x, p, false, ci), rows, g),
    ensures
        filtered(rows, Expression::Like(x, p, false, ci), g) matches Some(Ok(a)) && filtered(
            rows,
            Expression::Like(x, p, true, ci),
            g,
        ) matches Some(Ok(b)) && a.len() + b.len() == rows.len(),
{
    let c = Expression::Like(x, p, false, ci);
    let n = Expression::Like(x, p, true, ci);
    assert forall|i: int| 0 <= i < rows.len() implies #[trigger] opposite_on(c, n, rows[i], g) by {
        assert(eval(c, rows[i], g) matches Some(Ok(_)));
    }
    lemma_opposites_split(rows, c, n, g);
}

/// ILIKE is LIKE on the lower-case texts of the two values.
pub proof fn law_ilike_is_like_in_lower_case(t: ValueModel, p: ValueModel, negated: bool)
    requires
        !(t is List),
        !(p is List),
    ensures
        like_value(t, p, negated, true) == like_value(
            ValueModel::Str(unicode_lowercase(scalar_text(t))),
            ValueModel::Str(unicode_lowercase(scalar_text(p))),
            negated,
            false,
        ),
{
}

} // verus!
