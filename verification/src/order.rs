use vstd::prelude::*;
use crate::ast::{Expression, Literal, OrderItem, ParsedQuery};
use crate::engine::{rows_model, rows_valid, RowModel};
use crate::error::{ErrorModel, QueryResult};
use crate::eval::{
    all_digits, digits_value, eval, evaluate, is_digit, option_view, row_valid, row_view, syntax_err,
    syntax_error, Binding, Eval,
};
use crate::graph::{Entity, EntityGraph};
use crate::sort::{is_permutation, SortKey};
use crate::text::chars_of;
use crate::value::{compare_values, lemma_compare_values_flip, FieldValue, Order, ValueModel};

verus! {

/// The key an ORDER BY expression gives a row: its value, or none where it fails.
pub open spec fn key_of(r: Eval) -> Option<ValueModel> {
    match r {
        Some(Ok(v)) => Some(v),
        _ => None,
    }
}

/// The keys of a row for the ORDER BY items.
pub open spec fn row_keys(row: RowModel, items: Seq<OrderItem>, g: Seq<Entity>) -> Seq<Option<ValueModel>> {
    items.map_values(|it: OrderItem| key_of(eval(it.expr, row, g)))
}

/// Every ORDER BY expression can be evaluated on every row without a panic.
pub open spec fn keys_defined(rows: Seq<RowModel>, items: Seq<OrderItem>, g: Seq<Entity>) -> bool {
    forall|i: int, k: int| 0 <= i < rows.len() && 0 <= k < items.len() ==> (#[trigger] eval(items[k].expr, rows[i], g)) is Some
}

/// The direction of each ORDER BY item: ascending unless DESC is written.
pub open spec fn directions(items: Seq<OrderItem>) -> Seq<bool> {
    items.map_values(
        |it: OrderItem|
            match it.asc {
                Some(b) => b,
                None => true,
            },
    )
}

/// The order of two rows' keys from key `k` on: the first key that both rows have, that
/// compares, and that differs decides, in its direction; keys that are missing or do not
/// compare are passed over.
pub open spec fn keys_order(a: Seq<Option<ValueModel>>, b: Seq<Option<ValueModel>>, asc: Seq<bool>, k: int) -> Order
    decreases asc.len() - k,
{
    if k < 0 || k >= asc.len() || k >= a.len() || k >= b.len() {
        Order::Equal
    } else {
        let d = match (a[k], b[k]) {
            (Some(x), Some(y)) => match compare_values(x, y) {
                Some(o) => if asc[k] {
                    o
                } else {
                    o.flip()
                },
                None => Order::Equal,
            },
            _ => Order::Equal,
        };
        if d != Order::Equal {
            d
        } else {
            keys_order(a, b, asc, k + 1)
        }
    }
}

/// Keys compare the other way round in the opposite order.
pub proof fn lemma_keys_order_flip(a: Seq<Option<ValueModel>>, b: Seq<Option<ValueModel>>, asc: Seq<bool>, k: int)
    ensures
        keys_order(b, a, asc, k) == keys_order(a, b, asc, k).flip(),
    decreases asc.len() - k,
{
    if 0 <= k < asc.len() && k < a.len() && k < b.len() {
        match (a[k], b[k]) {
            (Some(x), Some(y)) => lemma_compare_values_flip(x, y),
            _ => {},
        }
        lemma_keys_order_flip(a, b, asc, k + 1);
    }
}

/// `sorted` is `rows` put in order by their keys: neighbours are in order, and neighbours
/// whose keys tie keep the order they had among the rows.
pub open spec fn in_order(rows: Seq<RowModel>, sorted: Seq<RowModel>, items: Seq<OrderItem>, g: Seq<Entity>) -> bool {
    exists|p: Seq<usize>|
        #![trigger is_permutation(p, rows.len())]
        is_permutation(p, rows.len()) && sorted.len() == rows.len() && (forall|i: int|
            0 <= i < sorted.len() ==> #[trigger] sorted[i] == rows[p[i] as int]) && (forall|k: int|
            #![trigger p[k], p[k + 1]]
            0 <= k < p.len() - 1 ==> {
                &&& keys_order(
                    row_keys(rows[p[k] as int], items, g),
                    row_keys(rows[p[k + 1] as int], items, g),
                    directions(items),
                    0,
                ) != Order::Greater
                &&& (keys_order(
                    row_keys(rows[p[k] as int], items, g),
                    row_keys(rows[p[k + 1] as int], items, g),
                    directions(items),
                    0,
                ) == Order::Equal ==> p[k] < p[k + 1])
            })
}

/// The ORDER BY keys of one row.
pub struct OrderKey {
    pub values: Vec<Option<FieldValue>>,
}

/// The models of a row's keys.
pub open spec fn keys_view(v: Seq<Option<FieldValue>>) -> Seq<Option<ValueModel>> {
    v.map_values(|o: Option<FieldValue>| option_view(o))
}

impl SortKey for OrderKey {
    type Context = Vec<bool>;

    open spec fn key_order(&self, other: &Self, ctx: &Vec<bool>) -> Order {
        keys_order(keys_view(self.values@), keys_view(other.values@), ctx@, 0)
    }

    proof fn lemma_key_order_flip(&self, other: &Self, ctx: &Vec<bool>) {
        lemma_keys_order_flip(keys_view(self.values@), keys_view(other.values@), ctx@, 0);
    }

    fn order_with(&self, other: &Self, ctx: &Vec<bool>) -> (r: Order) {
        let ghost a = keys_view(self.values@);
        let ghost b = keys_view(other.values@);
        let mut k: usize = 0;
        while k < ctx.len() && k < self.values.len() && k < other.values.len()
            invariant
                a == keys_view(self.values@),
                b == keys_view(other.values@),
                keys_order(a, b, ctx@, k as int) == keys_order(a, b, ctx@, 0),
            decreases ctx.len() - k,
        {
            let d = match (&self.values[k], &other.values[k]) {
                (Some(x), Some(y)) => match x.compare(y) {
                    Some(o) => if ctx[k] {
                        o
                    } else {
                        o.reverse()
                    },
                    None => Order::Equal,
                },
                _ => Order::Equal,
            };
            if !d.is_equal() {
                return d;
            }
            k = k + 1;
        }
        Order::Equal
    }
}

/// The ORDER BY keys of a row.
fn keys_of_row(row: &Vec<Binding>, items: &Vec<OrderItem>, graph: &EntityGraph) -> (r: OrderKey)
    requires
        row_valid(row_view(row@), graph.entities@),
    ensures
        r.values@.len() == items@.len(),
        forall|k: int| 0 <= k < items@.len() && (eval(items@[k].expr, row_view(row@), graph.entities@) is Some)
            ==> keys_view(r.values@)[k] == #[trigger] row_keys(row_view(row@), items@, graph.entities@)[k],
{
    let mut values: Vec<Option<FieldValue>> = Vec::new();
    let mut k: usize = 0;
    while k < items.len()
        invariant
            k <= items.len(),
            row_valid(row_view(row@), graph.entities@),
            values@.len() == k,
            forall|j: int| 0 <= j < k && (eval(items@[j].expr, row_view(row@), graph.entities@) is Some)
                ==> keys_view(values@)[j] == #[trigger] row_keys(row_view(row@), items@, graph.entities@)[j],
        decreases items.len() - k,
    {
        let v = match evaluate(&items[k].expr, row, graph) {
            Ok(v) => Some(v),
            Err(_) => None,
        };
        values.push(v);
        k = k + 1;
    }
    OrderKey { values }
}

/// The rows put in order by the ORDER BY items, ties keeping their order.
pub fn sort_rows(rows: &Vec<Vec<Binding>>, items: &Vec<OrderItem>, graph: &EntityGraph) -> (r: Vec<Vec<Binding>>)
    requires
        rows_valid(rows_model(rows@), graph.entities@),
    ensures
        rows_valid(rows_model(r@), graph.entities@),
        keys_defined(rows_model(rows@), items@, graph.entities@) ==> in_order(
            rows_model(rows@),
            rows_model(r@),
            items@,
            graph.entities@,
        ),
{
    let ghost rv = rows_model(rows@);
    let ghost g = graph.entities@;
    let mut keys: Vec<OrderKey> = Vec::new();
    let mut i: usize = 0;
    while i < rows.len()
        invariant
            i <= rows.len(),
            rv == rows_model(rows@),
            g == graph.entities@,
            rows_valid(rv, g),
            keys@.len() == i,
            keys_defined(rv, items@, g) ==> forall|j: int| 0 <= j < i ==> keys_view(#[trigger] keys@[j].values@)
                == row_keys(rv[j], items@, g),
        decreases rows.len() - i,
    {
        assert(rv[i as int] == row_view(rows@[i as int]@));
        assert(row_valid(rv[i as int], g));
        let key = keys_of_row(&rows[i], items, graph);
        proof {
            if keys_defined(rv, items@, g) {
                assert forall|k: int| 0 <= k < items@.len() implies eval(items@[k].expr, rv[i as int], g) is Some by {
                    assert(eval(items@[k].expr, rv[i as int], g) is Some);
                }
                assert(keys_view(key.values@) =~= row_keys(rv[i as int], items@, g));
            }
        }
        keys.push(key);
        i = i + 1;
    }
    let mut dirs: Vec<bool> = Vec::new();
    let mut k: usize = 0;
    while k < items.len()
        invariant
            k <= items.len(),
            dirs@ == directions(items@).take(k as int),
        decreases items.len() - k,
    {
        let d = match items[k].asc {
            Some(b) => b,
            None => true,
        };
        dirs.push(d);
        assert(dirs@ =~= directions(items@).take(k + 1));
        k = k + 1;
    }
    assert(dirs@ =~= directions(items@));
    let p = crate::sort::stable_order(&keys, &dirs);
    let mut sorted: Vec<Vec<Binding>> = Vec::new();
    let mut j: usize = 0;
    while j < p.len()
        invariant
            j <= p.len(),
            is_permutation(p@, rv.len()),
            rv == rows_model(rows@),
            g == graph.entities@,
            rows_valid(rv, g),
            sorted@.len() == j,
            forall|t: int| 0 <= t < j ==> #[trigger] rows_model(sorted@)[t] == rv[p@[t] as int],
        decreases p.len() - j,
    {
        assert(p@[j as int] < rv.len());
        let ghost before = rows_model(sorted@);
        sorted.push(crate::engine::clone_row(&rows[p[j]]));
        assert(rows_model(sorted@) =~= before.push(rv[p@[j as int] as int]));
        j = j + 1;
    }
    proof {
        let sv = rows_model(sorted@);
        assert forall|t: int| 0 <= t < sv.len() implies crate::eval::row_valid(#[trigger] sv[t], g) by {
            assert(sv[t] == rv[p@[t] as int]);
        }
        if keys_defined(rv, items@, g) {
            assert forall|k: int|
                #![trigger p@[k], p@[k + 1]]
                0 <= k < p@.len() - 1 implies {
                    &&& keys_order(
                        row_keys(rv[p@[k] as int], items@, g),
                        row_keys(rv[p@[k + 1] as int], items@, g),
                        directions(items@),
                        0,
                    ) != Order::Greater
                    &&& (keys_order(
                        row_keys(rv[p@[k] as int], items@, g),
                        row_keys(rv[p@[k + 1] as int], items@, g),
                        directions(items@),
                        0,
                    ) == Order::Equal ==> p@[k] < p@[k + 1])
                } by {
                assert(keys_view(keys@[p@[k] as int].values@) == row_keys(rv[p@[k] as int], items@, g));
                assert(keys_view(keys@[p@[k + 1] as int].values@) == row_keys(rv[p@[k + 1] as int], items@, g));
            }
            assert(is_permutation(p@, rv.len()));
        }
    }
    sorted
}

/// What `str::parse::<u64>` gives: an optional `+`, then one or more digits, in range.
pub open spec fn parse_u64(s: Seq<char>) -> Option<u64> {
    let body = if s.len() > 0 && s[0] == '+' {
        s.skip(1)
    } else {
        s
    };
    if body.len() == 0 || !all_digits(body) || digits_value(body) > u64::MAX {
        None
    } else {
        Some(digits_value(body) as u64)
    }
}

/// The count a LIMIT or OFFSET gives: a number literal that parses, or an error.
pub open spec fn count_value(e: Expression) -> Result<u64, ErrorModel> {
    match e {
        Expression::Value(Literal::Number(n)) => match parse_u64(n@) {
            Some(v) => Ok(v),
            None => Err(syntax_error("Invalid LIMIT/OFFSET value"@)),
        },
        _ => Err(syntax_error("LIMIT/OFFSET must be a number"@)),
    }
}

/// The rows after skipping `offset` of them, at most `limit` of them.
pub open spec fn skip_take(rows: Seq<RowModel>, offset: nat, limit: nat) -> Seq<RowModel> {
    let rest = if offset >= rows.len() {
        Seq::empty()
    } else {
        rows.skip(offset as int)
    };
    if limit >= rest.len() {
        rest
    } else {
        rest.take(limit as int)
    }
}

/// The rows that LIMIT and OFFSET leave: all of them without LIMIT (OFFSET alone is not
/// applied); LIMIT is read before OFFSET.
pub open spec fn window(rows: Seq<RowModel>, q: ParsedQuery) -> Result<Seq<RowModel>, ErrorModel> {
    match q.limit {
        None => Ok(rows),
        Some(l) => match count_value(l) {
            Err(e) => Err(e),
            Ok(n) => match q.offset {
                None => Ok(skip_take(rows, 0, n as nat)),
                Some(o) => match count_value(o) {
                    Err(e) => Err(e),
                    Ok(m) => Ok(skip_take(rows, m as nat, n as nat)),
                },
            },
        },
    }
}

/// `str::parse::<u64>`.
#[verifier::loop_isolation(false)]
pub fn parse_count(text: &str) -> (r: Option<u64>)
    ensures
        r == parse_u64(text@),
{
    let cs = chars_of(text);
    let start: usize = if cs.len() > 0 && cs[0] == '+' {
        1
    } else {
        0
    };
    let ghost body = if cs@.len() > 0 && cs@[0] == '+' {
        cs@.skip(1)
    } else {
        cs@
    };
    assert(body == cs@.skip(start as int));
    if cs.len() == start {
        return None;
    }
    let mut v: u128 = 0;
    let mut big = false;
    let mut i: usize = start;
    while i < cs.len()
        invariant
            start <= i <= cs.len(),
            body == cs@.skip(start as int),
            forall|j: int| 0 <= j < i - start ==> is_digit(#[trigger] body[j]),
            !big ==> v == digits_value(body.take(i - start)),
            big ==> digits_value(body.take(i - start)) > 0xffff_ffff_ffff_ffff,
            v <= 0xffff_ffff_ffff_ffff,
        decreases cs.len() - i,
    {
        let c = cs[i];
        if !('0' <= c && c <= '9') {
            assert(body[i - start] == c);
            assert(!is_digit(body[i - start]));
            return None;
        }
        let ghost prefix = body.take(i - start);
        assert(body.take(i - start + 1).drop_last() == prefix);
        assert(body.take(i - start + 1).last() == c);
        proof {
            crate::eval::lemma_digits_value_nonneg(prefix);
        }
        let d = (c as u32 - '0' as u32) as u128;
        if big || v * 10 + d > 0xffff_ffff_ffff_ffff {
            big = true;
            v = 0;
        } else {
            v = v * 10 + d;
        }
        i = i + 1;
    }
    assert(body.take(body.len() as int) == body);
    if big {
        return None;
    }
    Some(v as u64)
}

/// The count of a LIMIT or OFFSET.
pub fn count_of(e: &Expression) -> (r: QueryResult<u64>)
    ensures
        match r {
            Ok(v) => count_value(*e) == Ok::<u64, ErrorModel>(v),
            Err(x) => count_value(*e) == Err::<u64, ErrorModel>(x@),
        },
{
    match e {
        Expression::Value(Literal::Number(n)) => match parse_count(n.as_str()) {
            Some(v) => Ok(v),
            None => Err(syntax_err("Invalid LIMIT/OFFSET value")),
        },
        _ => Err(syntax_err("LIMIT/OFFSET must be a number")),
    }
}

/// The rows left by skipping and taking are rows of the list.
pub proof fn lemma_skip_take_valid(rows: Seq<RowModel>, offset: nat, limit: nat, g: Seq<Entity>)
    requires
        rows_valid(rows, g),
    ensures
        rows_valid(skip_take(rows, offset, limit), g),
{
    let w = skip_take(rows, offset, limit);
    assert forall|t: int| 0 <= t < w.len() implies row_valid(#[trigger] w[t], g) by {
        assert(w[t] == rows[offset + t]);
    }
}

/// The rows after skipping `offset` of them, at most `limit` of them.
pub(crate) fn skip_take_rows(rows: &Vec<Vec<Binding>>, offset: u64, limit: u64) -> (r: Vec<Vec<Binding>>)
    ensures
        rows_model(r@) == skip_take(rows_model(rows@), offset as nat, limit as nat),
{
    let ghost rv = rows_model(rows@);
    let ghost end = offset + limit;
    let mut out: Vec<Vec<Binding>> = Vec::new();
    let mut j: usize = 0;
    while j < rows.len()
        invariant
            j <= rows.len(),
            rv == rows_model(rows@),
            end == offset + limit,
            rows_model(out@) == rv.subrange(
                if offset < j { offset as int } else { j as int },
                if end < j { end } else { j as int },
            ),
        decreases rows.len() - j,
    {
        let ghost before = rows_model(out@);
        let jj = j as u64;
        if jj >= offset && jj - offset < limit {
            out.push(crate::engine::clone_row(&rows[j]));
            assert(rows_model(out@) =~= before.push(rv[j as int]));
        }
        assert(rows_model(out@) =~= rv.subrange(
            if offset < j + 1 { offset as int } else { j + 1 },
            if end < j + 1 { end } else { j + 1 },
        ));
        j = j + 1;
    }
    assert(rows_model(out@) =~= skip_take(rv, offset as nat, limit as nat));
    out
}

} // verus!
