use vstd::prelude::*;
use crate::ast::{BinaryOp, UnaryOp};
use crate::engine::{using_match, RowModel};
use crate::ast::Expression;
use crate::error::ErrorModel;
use crate::eval::{binary_value, eval, in_list, row_field, truthy, unary_value};
use crate::names::{lemma_text_order_equal, lemma_text_order_refl};
use crate::value::text_order;
use crate::graph::{distinct_types, Entity};
use crate::like::{like_outcome, split_percent};
use crate::value::{compare_values, Order, ValueModel};

verus! {

// Laws of the operators that WHERE and ON conditions are made of, of LIKE patterns, of
// USING joins and of the list of entity types.

/// `l OR r` is true when either side is truthy and false when neither is; `l AND r` is
/// true when both sides are truthy and false when either is not.
pub proof fn law_or_and(l: ValueModel, r: ValueModel)
    ensures
        truthy(l) ==> binary_value(l, BinaryOp::Or, r) == Some(Ok::<ValueModel, ErrorModel>(ValueModel::Bool(true))),
        truthy(r) ==> binary_value(l, BinaryOp::Or, r) == Some(Ok::<ValueModel, ErrorModel>(ValueModel::Bool(true))),
        !truthy(l) && !truthy(r) ==> binary_value(l, BinaryOp::Or, r) == Some(
            Ok::<ValueModel, ErrorModel>(ValueModel::Bool(false)),
        ),
        truthy(l) && truthy(r) ==> binary_value(l, BinaryOp::And, r) == Some(
            Ok::<ValueModel, ErrorModel>(ValueModel::Bool(true)),
        ),
        !truthy(l) ==> binary_value(l, BinaryOp::And, r) == Some(Ok::<ValueModel, ErrorModel>(ValueModel::Bool(false))),
        !truthy(r) ==> binary_value(l, BinaryOp::And, r) == Some(Ok::<ValueModel, ErrorModel>(ValueModel::Bool(false))),
{
}

/// `NOT v` is true exactly when `v` is not truthy, and `+v` is `v`.
pub proof fn law_not_and_plus(v: ValueModel)
    ensures
        unary_value(UnaryOp::Not, v) matches Some(Ok(ValueModel::Bool(b))) && b == !truthy(v),
        unary_value(UnaryOp::Plus, v) == Some(Ok::<ValueModel, ErrorModel>(v)),
{
}

/// Minus turns an integer into the integer that adds up with it to zero (the least
/// integer has none).
pub proof fn law_minus_int(i: i64)
    requires
        i != i64::MIN,
    ensures
        unary_value(UnaryOp::Minus, ValueModel::Int(i)) matches Some(Ok(ValueModel::Int(j))) && i + j == 0,
{
}

/// Minus turns a double into the double of the same magnitude and the other sign.
pub proof fn law_minus_float(f: u64)
    ensures
        unary_value(UnaryOp::Minus, ValueModel::Float(f)) matches Some(Ok(ValueModel::Float(h))) && (h
            & 0x7fff_ffff_ffff_ffffu64) == (f & 0x7fff_ffff_ffff_ffffu64) && (h >> 63u64) != (f >> 63u64),
{
    let h = f ^ 0x8000_0000_0000_0000u64;
    assert((h & 0x7fff_ffff_ffff_ffffu64) == (f & 0x7fff_ffff_ffff_ffffu64) && (h >> 63u64) != (f >> 63u64))
        by (bit_vector)
        requires
            h == f ^ 0x8000_0000_0000_0000u64,
    ;
}

/// A text without `%` is one piece.
proof fn lemma_split_plain(a: Seq<char>)
    requires
        !a.contains('%'),
    ensures
        split_percent(a) == seq![a],
    decreases a.len(),
{
    if a.len() > 0 {
        assert(!a.drop_last().contains('%')) by {
            if a.drop_last().contains('%') {
                let j = choose|j: int| 0 <= j < a.drop_last().len() && a.drop_last()[j] == '%';
                assert(a[j] == '%');
            }
        }
        lemma_split_plain(a.drop_last());
        assert(a.last() != '%') by {
            assert(a[a.len() - 1] == a.last());
        }
        assert(a.drop_last().push(a.last()) =~= a);
    } else {
        assert(a =~= Seq::<char>::empty());
    }
}

/// `a%b`, with no `%` in `a` or `b`, splits into `a` and `b`.
proof fn lemma_split_one_percent(a: Seq<char>, b: Seq<char>)
    requires
        !a.contains('%'),
        !b.contains('%'),
    ensures
        split_percent(a + seq!['%'] + b) == seq![a, b],
    decreases b.len(),
{
    if b.len() == 0 {
        lemma_split_plain(a);
        let p = a + seq!['%'] + b;
        assert(p =~= a.push('%'));
        assert(p.drop_last() =~= a);
        assert(p.last() == '%');
        assert(split_percent(p) == split_percent(a).push(Seq::<char>::empty()));
        assert(b =~= Seq::<char>::empty());
        assert(seq![a].push(Seq::<char>::empty()) =~= seq![a, b]);
    } else {
        assert(!b.drop_last().contains('%')) by {
            if b.drop_last().contains('%') {
                let j = choose|j: int| 0 <= j < b.drop_last().len() && b.drop_last()[j] == '%';
                assert(b[j] == '%');
            }
        }
        lemma_split_one_percent(a, b.drop_last());
        let p = a + seq!['%'] + b;
        assert(p.drop_last() =~= a + seq!['%'] + b.drop_last());
        assert(p.last() == b.last());
        assert(b.last() != '%') by {
            assert(b[b.len() - 1] == b.last());
        }
        assert(b.drop_last().push(b.last()) =~= b);
        let rest = split_percent(p.drop_last());
        assert(rest == seq![a, b.drop_last()]);
        assert(split_percent(p) == rest.update(rest.len() - 1, rest.last().push(p.last())));
        assert(rest.update(1, b.drop_last().push(b.last())) =~= seq![a, b]);
    }
}

/// A pattern without `%` matches exactly the text equal to it.
pub proof fn law_like_plain(t: Seq<char>, p: Seq<char>)
    requires
        !p.contains('%'),
    ensures
        like_outcome(t, p) == (t == p),
{
}

/// A pattern `a%b` with one `%` matches exactly the texts that begin with `a` and end
/// with `b`.
pub proof fn law_like_one_percent(t: Seq<char>, a: Seq<char>, b: Seq<char>)
    requires
        !a.contains('%'),
        !b.contains('%'),
    ensures
        like_outcome(t, a + seq!['%'] + b) == (a.len() <= t.len() && t.subrange(0, a.len() as int) == a
            && b.len() <= t.len() && t.subrange(t.len() - b.len(), t.len() as int) == b),
{
    lemma_split_one_percent(a, b);
    let p = a + seq!['%'] + b;
    assert(p[a.len() as int] == '%');
    assert(p.contains('%'));
}

/// The entity types of a graph: each once, and exactly the types of its entities.
pub proof fn law_distinct_types(es: Seq<Entity>)
    ensures
        forall|i: int, j: int|
            0 <= i < j < distinct_types(es).len() ==> #[trigger] distinct_types(es)[i] != #[trigger] distinct_types(
                es,
            )[j],
        forall|k: int| 0 <= k < es.len() ==> distinct_types(es).contains(#[trigger] es[k].entity_type@),
        forall|i: int|
            #![trigger distinct_types(es)[i]]
            0 <= i < distinct_types(es).len() ==> exists|k: int|
                0 <= k < es.len() && #[trigger] es[k].entity_type@ == distinct_types(es)[i],
    decreases es.len(),
{
    if es.len() > 0 {
        let d = es.drop_last();
        law_distinct_types(d);
        let rest = distinct_types(d);
        let t = es.last().entity_type@;
        assert forall|k: int| 0 <= k < es.len() implies distinct_types(es).contains(#[trigger] es[k].entity_type@) by {
            if k < es.len() - 1 {
                assert(es[k] == d[k]);
                assert(rest.contains(d[k].entity_type@));
                let m = choose|m: int| 0 <= m < rest.len() && rest[m] == d[k].entity_type@;
                assert(distinct_types(es)[m] == rest[m]);
            } else {
                if !rest.contains(t) {
                    assert(distinct_types(es)[rest.len() as int] == t);
                }
            }
        }
        assert forall|i: int| #![trigger distinct_types(es)[i]] 0 <= i < distinct_types(es).len() implies exists|k: int|
            0 <= k < es.len() && #[trigger] es[k].entity_type@ == distinct_types(es)[i] by {
            if i < rest.len() {
                assert(distinct_types(es)[i] == rest[i]);
                let k = choose|k: int| 0 <= k < d.len() && #[trigger] d[k].entity_type@ == rest[i];
                assert(es[k] == d[k]);
            } else {
                assert(es[es.len() - 1] == es.last());
            }
        }
        assert forall|i: int, j: int| 0 <= i < j < distinct_types(es).len() implies #[trigger] distinct_types(
            es,
        )[i] != #[trigger] distinct_types(es)[j] by {
            if j < rest.len() {
                assert(distinct_types(es)[i] == rest[i]);
                assert(distinct_types(es)[j] == rest[j]);
            } else {
                assert(distinct_types(es)[i] == rest[i]);
                assert(distinct_types(es)[j] == t);
                assert(!rest.contains(t));
            }
        }
    }
}

/// A USING join holds of two rows exactly when every named column has equal values in
/// them.
pub proof fn law_using_all_columns(l: RowModel, r: RowModel, cols: Seq<Seq<char>>, g: Seq<Entity>)
    ensures
        using_match(l, r, cols, g, 0) <==> forall|k: int|
            0 <= k < cols.len() ==> compare_values(#[trigger] row_field(cols[k], l, g), row_field(cols[k], r, g))
                == Some(Order::Equal),
{
    lemma_using_from(l, r, cols, g, 0);
}

proof fn lemma_using_from(l: RowModel, r: RowModel, cols: Seq<Seq<char>>, g: Seq<Entity>, from: int)
    requires
        0 <= from,
    ensures
        using_match(l, r, cols, g, from) <==> forall|k: int|
            from <= k < cols.len() ==> compare_values(#[trigger] row_field(cols[k], l, g), row_field(cols[k], r, g))
                == Some(Order::Equal),
    decreases cols.len() - from,
{
    if from < cols.len() {
        lemma_using_from(l, r, cols, g, from + 1);
    }
}

/// Comparisons of two integers are the comparisons of their values.
pub proof fn law_integer_comparisons(a: i64, b: i64)
    ensures
        binary_value(ValueModel::Int(a), BinaryOp::Eq, ValueModel::Int(b)) == Some(
            Ok::<ValueModel, ErrorModel>(ValueModel::Bool(a == b)),
        ),
        binary_value(ValueModel::Int(a), BinaryOp::NotEq, ValueModel::Int(b)) == Some(
            Ok::<ValueModel, ErrorModel>(ValueModel::Bool(a != b)),
        ),
        binary_value(ValueModel::Int(a), BinaryOp::Lt, ValueModel::Int(b)) == Some(
            Ok::<ValueModel, ErrorModel>(ValueModel::Bool(a < b)),
        ),
        binary_value(ValueModel::Int(a), BinaryOp::LtEq, ValueModel::Int(b)) == Some(
            Ok::<ValueModel, ErrorModel>(ValueModel::Bool(a <= b)),
        ),
        binary_value(ValueModel::Int(a), BinaryOp::Gt, ValueModel::Int(b)) == Some(
            Ok::<ValueModel, ErrorModel>(ValueModel::Bool(a > b)),
        ),
        binary_value(ValueModel::Int(a), BinaryOp::GtEq, ValueModel::Int(b)) == Some(
            Ok::<ValueModel, ErrorModel>(ValueModel::Bool(a >= b)),
        ),
{
}

/// Two texts are `=` exactly when they are the same text, and `<>` exactly when not.
pub proof fn law_text_equality(a: Seq<char>, b: Seq<char>)
    ensures
        binary_value(ValueModel::Str(a), BinaryOp::Eq, ValueModel::Str(b)) == Some(
            Ok::<ValueModel, ErrorModel>(ValueModel::Bool(a == b)),
        ),
        binary_value(ValueModel::Str(a), BinaryOp::NotEq, ValueModel::Str(b)) == Some(
            Ok::<ValueModel, ErrorModel>(ValueModel::Bool(a != b)),
        ),
{
    lemma_text_order_refl(a);
    if text_order(a, b) == Order::Equal {
        lemma_text_order_equal(a, b);
    }
}

/// `t IN (list)`, where every item of the list evaluates on the row, is true exactly
/// when some item's value equals `t`.
pub proof fn law_in_list(t: ValueModel, list: Seq<Expression>, row: RowModel, g: Seq<Entity>)
    requires
        forall|i: int| 0 <= i < list.len() ==> (#[trigger] eval(list[i], row, g)) is Some && eval(list[i], row, g)->0 is Ok,
    ensures
        in_list(t, list, 0, row, g) == Some(
            Ok::<bool, ErrorModel>(
                exists|i: int|
                    0 <= i < list.len() && compare_values(t, (#[trigger] eval(list[i], row, g))->0->Ok_0)
                        == Some(Order::Equal),
            ),
        ),
{
    lemma_in_list_from(t, list, 0, row, g);
}

proof fn lemma_in_list_from(t: ValueModel, list: Seq<Expression>, from: int, row: RowModel, g: Seq<Entity>)
    requires
        0 <= from,
        forall|i: int| 0 <= i < list.len() ==> (#[trigger] eval(list[i], row, g)) is Some && eval(list[i], row, g)->0 is Ok,
    ensures
        in_list(t, list, from, row, g) == Some(
            Ok::<bool, ErrorModel>(
                exists|i: int|
                    from <= i < list.len() && compare_values(t, (#[trigger] eval(list[i], row, g))->0->Ok_0)
                        == Some(Order::Equal),
            ),
        ),
    decreases list.len() - from,
{
    if from < list.len() {
        lemma_in_list_from(t, list, from + 1, row, g);
        assert(eval(list[from], row, g) is Some);
    }
}

} // verus!
