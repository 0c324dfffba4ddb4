use vstd::prelude::*;
use crate::ast::{BinaryOp, CallArg, CallArgs, Expression, FunctionCall, Literal, UnaryOp};
use crate::error::{concat, owned, ErrorModel, QueryError, QueryResult};
use crate::float::{
    float_add, float_div, float_from_int, float_is_integral, float_mul, float_neg, float_nonzero,
    float_parse, float_rem, float_sub, float_to_i64, ieee_add, ieee_div, ieee_from_int, ieee_mul,
    ieee_parse, ieee_rem, ieee_sub, ieee_to_i64, ieee_trunc, is_finite, is_zero, sign_bit,
};
use crate::graph::{entity_position, field_value, Entity};
use crate::like::{like_match, like_outcome};
use crate::text::{chars_of, to_lowercase, to_uppercase, unicode_lowercase, unicode_uppercase};
use crate::value::{compare_values, scalar_text, FieldValue, Order, RefModel, ValueModel};

verus! {

broadcast use {
    vstd::std_specs::vec::axiom_vec_decreases_to_view,
    vstd::std_specs::vec::axiom_vec_index_decreases,
};

/// One entity of a row of a query, under the name (table name or alias) it is known by.
pub struct Binding {
    pub alias: String,
    pub entity: usize,
}

impl View for Binding {
    type V = (Seq<char>, nat);

    open spec fn view(&self) -> (Seq<char>, nat) {
        (self.alias@, self.entity as nat)
    }
}

/// The bindings of a row.
pub open spec fn row_view(row: Seq<Binding>) -> Seq<(Seq<char>, nat)> {
    row.map_values(|b: Binding| b@)
}

/// A row refers only to entities of the graph.
pub open spec fn row_valid(row: Seq<(Seq<char>, nat)>, g: Seq<Entity>) -> bool {
    forall|i: int| 0 <= i < row.len() ==> #[trigger] row[i].1 < g.len()
}

/// What an evaluation gives: a value or an error, or `None` where the evaluation panics.
pub type Eval = Option<Result<ValueModel, ErrorModel>>;

/// The text that stands for a missing value.
pub open spec fn null_text() -> Seq<char> {
    "NULL"@
}

/// The value that stands for a missing value.
pub open spec fn null_value() -> ValueModel {
    ValueModel::Str(null_text())
}

/// A syntax error at position 0.
pub open spec fn syntax_error(m: Seq<char>) -> ErrorModel {
    ErrorModel::Syntax(m, 0)
}

/// The error of an evaluation.
pub open spec fn fail(m: Seq<char>) -> Eval {
    Some(Err(syntax_error(m)))
}

/// A value or its error, as an evaluation outcome.
pub open spec fn result_view(r: QueryResult<FieldValue>) -> Result<ValueModel, ErrorModel> {
    match r {
        Ok(v) => Ok(v@),
        Err(e) => Err(e@),
    }
}

/// The value of a named field in an entity; `id` names the entity's id, and a missing
/// field is `NULL`.
pub open spec fn entity_field(e: Entity, name: Seq<char>) -> ValueModel {
    if name == "id"@ {
        ValueModel::Str(e.id@)
    } else {
        match field_value(e, name) {
            Some(v) => v,
            None => null_value(),
        }
    }
}

/// The value of a named field in the first entity of a row that has it, from position `i`.
pub open spec fn row_field_from(
    name: Seq<char>,
    row: Seq<(Seq<char>, nat)>,
    g: Seq<Entity>,
    i: int,
) -> ValueModel
    decreases row.len() - i,
{
    if i < 0 || i >= row.len() {
        null_value()
    } else {
        match field_value(g[row[i].1 as int], name) {
            Some(v) => v,
            None => row_field_from(name, row, g, i + 1),
        }
    }
}

/// The value of a named field in a row: `id` is the id of the row's first entity, and any
/// other name is looked up in the row's entities in order.
pub open spec fn row_field(name: Seq<char>, row: Seq<(Seq<char>, nat)>, g: Seq<Entity>) -> ValueModel {
    if name == "id"@ && row.len() > 0 {
        ValueModel::Str(g[row[0].1 as int].id@)
    } else {
        row_field_from(name, row, g, 0)
    }
}

/// The position in a row of the binding with the given name.
pub open spec fn binding_position(row: Seq<(Seq<char>, nat)>, alias: Seq<char>) -> Option<int>
    decreases row.len(),
{
    if row.len() == 0 {
        None
    } else if row[0].0 == alias {
        Some(0)
    } else {
        match binding_position(row.drop_first(), alias) {
            Some(i) => Some(i + 1),
            None => None,
        }
    }
}

/// The id that a reference points to.
pub open spec fn ref_target(r: RefModel) -> Seq<char> {
    match r {
        RefModel::Entity(id) => id,
        RefModel::Field(id, _) => id,
    }
}

/// Follows the reference fields `path[i..len-1]` from the entity at `cur`, then reads the
/// last field; `NULL` where a field is not a reference or its target is not in the graph.
pub open spec fn follow_path(path: Seq<Seq<char>>, g: Seq<Entity>, cur: int, i: int) -> ValueModel
    decreases path.len() - i,
{
    if i < 1 || i >= path.len() - 1 {
        entity_field(g[cur], path.last())
    } else {
        match field_value(g[cur], path[i]) {
            Some(ValueModel::Reference(r)) => match entity_position(g, ref_target(r)) {
                Some(k) => follow_path(path, g, k, i + 1),
                None => null_value(),
            },
            _ => null_value(),
        }
    }
}

/// The value of a dotted name: `table.field` reads the field of the row's entity under
/// that name (or, without one, the field from the row); longer paths follow references.
pub open spec fn compound_value(
    path: Seq<Seq<char>>,
    row: Seq<(Seq<char>, nat)>,
    g: Seq<Entity>,
) -> Eval {
    if path.len() == 0 {
        None
    } else if path.len() == 1 {
        Some(Ok(row_field(path[0], row, g)))
    } else {
        match binding_position(row, path[0]) {
            Some(b) => if path.len() == 2 {
                Some(Ok(entity_field(g[row[b].1 as int], path[1])))
            } else {
                Some(Ok(follow_path(path, g, row[b].1 as int, 1)))
            },
            None => if path.len() == 2 {
                Some(Ok(row_field(path[1], row, g)))
            } else {
                Some(Err(ErrorModel::UnknownEntityType(path[0])))
            },
        }
    }
}

/// Whether a character is an ASCII digit.
pub open spec fn is_digit(c: char) -> bool {
    '0' <= c && c <= '9'
}

/// The value of a sequence of decimal digits.
pub open spec fn digits_value(s: Seq<char>) -> int
    decreases s.len(),
{
    if s.len() == 0 {
        0
    } else {
        digits_value(s.drop_last()) * 10 + (s.last() as int - '0' as int)
    }
}

/// A text without its leading sign, if it has one.
pub open spec fn unsigned_part(s: Seq<char>) -> Seq<char> {
    if s.len() > 0 && (s[0] == '-' || s[0] == '+') {
        s.skip(1)
    } else {
        s
    }
}

/// Whether a text is made of ASCII digits only.
pub open spec fn all_digits(s: Seq<char>) -> bool {
    forall|i: int| 0 <= i < s.len() ==> is_digit(#[trigger] s[i])
}

/// What `str::parse::<i64>` gives: an optional sign, then one or more digits, in range.
pub open spec fn parse_i64(s: Seq<char>) -> Option<i64> {
    let neg = s.len() > 0 && s[0] == '-';
    let body = unsigned_part(s);
    let v = if neg {
        -digits_value(body)
    } else {
        digits_value(body)
    };
    if body.len() == 0 || !all_digits(body) {
        None
    } else if i64::MIN <= v <= i64::MAX {
        Some(v as i64)
    } else {
        None
    }
}

/// The value of a literal: a number is an integer where it parses as one, else a double;
/// `NULL` is the text `NULL`.
pub open spec fn literal_value(l: Literal) -> Eval {
    match l {
        Literal::Number(n) => match parse_i64(n@) {
            Some(i) => Some(Ok(ValueModel::Int(i))),
            None => match ieee_parse(n@) {
                Some(b) => Some(Ok(ValueModel::Float(b))),
                None => fail("Invalid number format"@),
            },
        },
        Literal::Text(s) => Some(Ok(ValueModel::Str(s@))),
        Literal::Boolean(b) => Some(Ok(ValueModel::Bool(b))),
        Literal::Null => Some(Ok(null_value())),
        Literal::Other(d) => fail("Unsupported literal value: "@ + d@),
    }
}

/// Whether a value counts as true: true, a non-zero number, or a non-empty text other
/// than `NULL`.
pub open spec fn truthy(v: ValueModel) -> bool {
    match v {
        ValueModel::Bool(b) => b,
        ValueModel::Int(i) => i != 0,
        ValueModel::Float(f) => !is_zero(f),
        ValueModel::Str(s) => s != null_text() && s.len() > 0,
        _ => false,
    }
}

/// A number as a double.
pub open spec fn as_double(v: ValueModel) -> Option<u64> {
    match v {
        ValueModel::Int(i) => Some(ieee_from_int(i)),
        ValueModel::Float(f) => Some(f),
        _ => None,
    }
}

/// An arithmetic operator of a query.
pub enum Arith {
    Add,
    Sub,
    Mul,
    Div,
    Rem,
}

/// The double that an arithmetic operator gives.
pub open spec fn ieee_op(op: Arith, a: u64, b: u64) -> u64 {
    match op {
        Arith::Add => ieee_add(a, b),
        Arith::Sub => ieee_sub(a, b),
        Arith::Mul => ieee_mul(a, b),
        Arith::Div => ieee_div(a, b),
        Arith::Rem => ieee_rem(a, b),
    }
}

/// Arithmetic on two numbers, computed on doubles: an integer where both operands are
/// integers and the result has no fractional part, else a double.
pub open spec fn arith_value(op: Arith, l: ValueModel, r: ValueModel) -> Eval {
    match (as_double(l), as_double(r)) {
        (Some(a), Some(b)) => {
            let res = ieee_op(op, a, b);
            if l is Int && r is Int && is_finite(res) && ieee_trunc(res) == res {
                Some(Ok(ValueModel::Int(ieee_to_i64(res))))
            } else {
                Some(Ok(ValueModel::Float(res)))
            }
        },
        _ => fail("Cannot convert to number"@),
    }
}

/// The value of a binary operator applied to two values.
pub open spec fn binary_value(l: ValueModel, op: BinaryOp, r: ValueModel) -> Eval {
    let c = compare_values(l, r);
    match op {
        BinaryOp::Eq => Some(Ok(ValueModel::Bool(c == Some(Order::Equal)))),
        BinaryOp::NotEq => Some(Ok(ValueModel::Bool(c != Some(Order::Equal)))),
        BinaryOp::Lt => Some(Ok(ValueModel::Bool(c == Some(Order::Less)))),
        BinaryOp::LtEq => Some(
            Ok(ValueModel::Bool(c == Some(Order::Less) || c == Some(Order::Equal))),
        ),
        BinaryOp::Gt => Some(Ok(ValueModel::Bool(c == Some(Order::Greater)))),
        BinaryOp::GtEq => Some(
            Ok(ValueModel::Bool(c == Some(Order::Greater) || c == Some(Order::Equal))),
        ),
        BinaryOp::And => Some(Ok(ValueModel::Bool(truthy(l) && truthy(r)))),
        BinaryOp::Or => Some(Ok(ValueModel::Bool(truthy(l) || truthy(r)))),
        BinaryOp::Plus => arith_value(Arith::Add, l, r),
        BinaryOp::Minus => arith_value(Arith::Sub, l, r),
        BinaryOp::Multiply => arith_value(Arith::Mul, l, r),
        BinaryOp::Divide => arith_value(Arith::Div, l, r),
        BinaryOp::Modulo => arith_value(Arith::Rem, l, r),
        BinaryOp::Other(d) => fail("Unsupported binary operator: "@ + d@),
    }
}

/// The value of a unary operator applied to a value; negating the least integer panics.
pub open spec fn unary_value(op: UnaryOp, v: ValueModel) -> Eval {
    match op {
        UnaryOp::Not => Some(Ok(ValueModel::Bool(!truthy(v)))),
        UnaryOp::Plus => Some(Ok(v)),
        UnaryOp::Minus => match v {
            ValueModel::Int(i) => if i == i64::MIN {
                None
            } else {
                Some(Ok(ValueModel::Int((-i) as i64)))
            },
            ValueModel::Float(f) => Some(Ok(ValueModel::Float(f ^ sign_bit()))),
            _ => fail("Cannot negate non-numeric value"@),
        },
        UnaryOp::Other(d) => fail("Unsupported unary operator: "@ + d@),
    }
}

/// The text that LIKE matches a value by; a list has none.
pub open spec fn like_text(v: ValueModel) -> Result<Seq<char>, ErrorModel> {
    if v is List {
        Err(syntax_error("LIKE pattern matching not supported for List fields"@))
    } else {
        Ok(scalar_text(v))
    }
}

/// The value of `text [NOT] [I]LIKE pattern`.
pub open spec fn like_value(t: ValueModel, p: ValueModel, negated: bool, ci: bool) -> Eval {
    match (like_text(t), like_text(p)) {
        (Err(e), _) => Some(Err(e)),
        (Ok(_), Err(e)) => Some(Err(e)),
        (Ok(ts), Ok(ps)) => {
            let a = if ci {
                unicode_lowercase(ts)
            } else {
                ts
            };
            let b = if ci {
                unicode_lowercase(ps)
            } else {
                ps
            };
            Some(Ok(ValueModel::Bool(like_outcome(a, b) != negated)))
        },
    }
}

/// The parts of a name joined by dots.
pub open spec fn join_dot(parts: Seq<Seq<char>>) -> Seq<char>
    decreases parts.len(),
{
    if parts.len() == 0 {
        Seq::empty()
    } else if parts.len() == 1 {
        parts[0]
    } else {
        join_dot(parts.drop_last()) + "."@ + parts.last()
    }
}

/// The texts of a list of strings.
pub open spec fn texts(v: Seq<String>) -> Seq<Seq<char>> {
    v.map_values(|s: String| s@)
}

/// The name a function is called by: its parts joined by dots, in upper case.
pub open spec fn function_name(f: FunctionCall) -> Seq<char> {
    unicode_uppercase(join_dot(texts(f.name@)))
}

/// Which aggregate a function is.
pub enum Aggregate {
    Max,
    Min,
    Sum,
    Avg,
}

/// The name of an aggregate.
pub open spec fn aggregate_name(a: Aggregate) -> Seq<char> {
    match a {
        Aggregate::Max => "MAX"@,
        Aggregate::Min => "MIN"@,
        Aggregate::Sum => "SUM"@,
        Aggregate::Avg => "AVG"@,
    }
}

/// The row of one entity under the empty name, on which an aggregate's argument is
/// evaluated.
pub open spec fn single_row(e: nat) -> Seq<(Seq<char>, nat)> {
    seq![(Seq::empty(), e)]
}

/// The value of an expression on a row of entities of the graph.
pub open spec fn eval(e: Expression, row: Seq<(Seq<char>, nat)>, g: Seq<Entity>) -> Eval
    decreases e, 0int,
{
    match e {
        Expression::Identifier(name) => Some(Ok(row_field(name@, row, g))),
        Expression::CompoundIdentifier(parts) => compound_value(texts(parts@), row, g),
        Expression::Value(l) => literal_value(l),
        Expression::BinaryOp(l, op, r) => match eval(*l, row, g) {
            Some(Ok(lv)) => match eval(*r, row, g) {
                Some(Ok(rv)) => binary_value(lv, op, rv),
                other => other,
            },
            other => other,
        },
        Expression::UnaryOp(op, x) => match eval(*x, row, g) {
            Some(Ok(v)) => unary_value(op, v),
            other => other,
        },
        Expression::Function(f) => eval_function(f, row, g),
        Expression::Nested(x) => eval(*x, row, g),
        Expression::IsNull(x) => match eval(*x, row, g) {
            Some(Ok(v)) => Some(Ok(ValueModel::Bool(v == null_value()))),
            other => other,
        },
        Expression::IsNotNull(x) => match eval(*x, row, g) {
            Some(Ok(v)) => Some(Ok(ValueModel::Bool(v != null_value()))),
            other => other,
        },
        Expression::InList(x, list, negated) => match eval(*x, row, g) {
            Some(Ok(t)) => match in_list(t, list@, 0, row, g) {
                Some(Ok(found)) => Some(Ok(ValueModel::Bool(found != negated))),
                Some(Err(err)) => Some(Err(err)),
                None => None,
            },
            other => other,
        },
        Expression::Like(x, p, negated, ci) => match eval(*x, row, g) {
            Some(Ok(t)) => match eval(*p, row, g) {
                Some(Ok(pv)) => like_value(t, pv, negated, ci),
                other => other,
            },
            other => other,
        },
        Expression::Unsupported(d) => fail("Unsupported expression: "@ + d@),
    }
}

/// Whether a value equals one of `list[i..]`, evaluating the list in order up to the
/// first equal item.
pub open spec fn in_list(
    t: ValueModel,
    list: Seq<Expression>,
    i: int,
    row: Seq<(Seq<char>, nat)>,
    g: Seq<Entity>,
) -> Option<Result<bool, ErrorModel>>
    decreases list, list.len() - i,
{
    if i < 0 || i >= list.len() {
        Some(Ok(false))
    } else {
        match eval(list[i], row, g) {
            Some(Ok(v)) => if compare_values(t, v) == Some(Order::Equal) {
                Some(Ok(true))
            } else {
                in_list(t, list, i + 1, row, g)
            },
            Some(Err(err)) => Some(Err(err)),
            None => None,
        }
    }
}

/// The value of a function call: `COUNT` counts the row's entities, and the aggregates
/// fold their single argument over the row's entities.
pub open spec fn eval_function(f: FunctionCall, row: Seq<(Seq<char>, nat)>, g: Seq<Entity>) -> Eval
    decreases f, 0int,
{
    let name = function_name(f);
    if name == "COUNT"@ {
        Some(Ok(ValueModel::Int(row.len() as i64)))
    } else if name == "MAX"@ {
        eval_aggregate(Aggregate::Max, f.args, row, g)
    } else if name == "MIN"@ {
        eval_aggregate(Aggregate::Min, f.args, row, g)
    } else if name == "SUM"@ {
        eval_aggregate(Aggregate::Sum, f.args, row, g)
    } else if name == "AVG"@ {
        eval_aggregate(Aggregate::Avg, f.args, row, g)
    } else {
        fail("Unsupported function: "@ + name)
    }
}

/// An aggregate over the row's entities, given its arguments.
pub open spec fn eval_aggregate(
    a: Aggregate,
    args: CallArgs,
    row: Seq<(Seq<char>, nat)>,
    g: Seq<Entity>,
) -> Eval
    decreases args, 0int,
{
    match args {
        CallArgs::List(list) => if list@.len() != 1 {
            fail(aggregate_name(a) + " function requires exactly one argument"@)
        } else {
            match a {
                Aggregate::Max => extreme(list@[0], row, g, 0, None, true),
                Aggregate::Min => extreme(list@[0], row, g, 0, None, false),
                Aggregate::Sum => match total(list@[0], row, g, 0, 0) {
                    Some(Ok(s)) => Some(Ok(ValueModel::Float(s))),
                    Some(Err(err)) => Some(Err(err)),
                    None => None,
                },
                Aggregate::Avg => if row.len() == 0 {
                    fail("No values to compute AVG"@)
                } else {
                    match total(list@[0], row, g, 0, 0) {
                        Some(Ok(s)) => Some(
                            Ok(ValueModel::Float(ieee_div(s, ieee_from_int(row.len() as i64)))),
                        ),
                        Some(Err(err)) => Some(Err(err)),
                        None => None,
                    }
                },
            }
        },
        _ => fail(aggregate_name(a) + " function requires arguments"@),
    }
}

/// The argument of an aggregate evaluated on the row's entity at position `i`.
pub open spec fn argument_value(arg: CallArg, row: Seq<(Seq<char>, nat)>, g: Seq<Entity>, i: int) -> Eval
    decreases arg, 0int,
{
    match arg {
        CallArg::Expr(x) => eval(x, single_row(row[i].1), g),
        CallArg::Other => fail("Unsupported function argument"@),
    }
}

/// The greatest (or least) value of the argument over the row's entities from `i`, the
/// first such value kept on ties; an error where there are none.
pub open spec fn extreme(
    arg: CallArg,
    row: Seq<(Seq<char>, nat)>,
    g: Seq<Entity>,
    i: int,
    best: Option<ValueModel>,
    greatest: bool,
) -> Eval
    decreases arg, row.len() - i,
{
    if i < 0 || i >= row.len() {
        match best {
            Some(v) => Some(Ok(v)),
            None => fail(
                (if greatest {
                    "No values to compute MAX"@
                } else {
                    "No values to compute MIN"@
                }),
            ),
        }
    } else {
        match argument_value(arg, row, g, i) {
            Some(Ok(v)) => {
                let next = match best {
                    None => Some(v),
                    Some(b) => {
                        let c = match compare_values(v, b) {
                            Some(o) => o,
                            None => Order::Equal,
                        };
                        if c == (if greatest {
                            Order::Greater
                        } else {
                            Order::Less
                        }) {
                            Some(v)
                        } else {
                            Some(b)
                        }
                    },
                };
                extreme(arg, row, g, i + 1, next, greatest)
            },
            other => other,
        }
    }
}

/// The sum, on doubles, of the argument over the row's entities from `i`, added to `acc`.
pub open spec fn total(
    arg: CallArg,
    row: Seq<(Seq<char>, nat)>,
    g: Seq<Entity>,
    i: int,
    acc: u64,
) -> Option<Result<u64, ErrorModel>>
    decreases arg, row.len() - i,
{
    if i < 0 || i >= row.len() {
        Some(Ok(acc))
    } else {
        match argument_value(arg, row, g, i) {
            Some(Ok(v)) => match as_double(v) {
                Some(d) => total(arg, row, g, i + 1, ieee_add(acc, d)),
                None => Some(Err(syntax_error("Cannot convert to number"@))),
            },
            Some(Err(err)) => Some(Err(err)),
            None => None,
        }
    }
}

} // verus!

verus! {

/// The text `NULL`, the value of a missing field.
pub fn null_field() -> (r: FieldValue)
    ensures
        r@ == null_value(),
{
    FieldValue::String(owned("NULL"))
}

/// A syntax error at position 0.
pub fn syntax_err(m: &str) -> (r: QueryError)
    ensures
        r@ == syntax_error(m@),
{
    QueryError::syntax(m, 0)
}

/// The value of a named field of an entity (`id` is its id; missing is `NULL`).
pub fn entity_field_value(e: &Entity, name: &str) -> (r: FieldValue)
    ensures
        r@ == entity_field(*e, name@),
{
    if crate::text::str_equal(name, "id") {
        return FieldValue::String(e.id.clone());
    }
    match e.get_field(name) {
        Some(v) => v.duplicate(),
        None => null_field(),
    }
}

/// The value of a named field in a row.
#[verifier::loop_isolation(false)]
pub fn row_field_value(name: &str, row: &Vec<Binding>, graph: &crate::graph::EntityGraph) -> (r: FieldValue)
    requires
        row_valid(row_view(row@), graph.entities@),
    ensures
        r@ == row_field(name@, row_view(row@), graph.entities@),
{
    let ghost rv = row_view(row@);
    let ghost g = graph.entities@;
    if crate::text::str_equal(name, "id") && row.len() > 0 {
        assert(rv[0].1 < g.len());
        return FieldValue::String(graph.entities[row[0].entity].id.clone());
    }
    let mut i: usize = 0;
    while i < row.len()
        invariant
            i <= row.len(),
            rv == row_view(row@),
            g == graph.entities@,
            row_valid(rv, g),
            row_field_from(name@, rv, g, i as int) == row_field_from(name@, rv, g, 0),
        decreases row.len() - i,
    {
        assert(rv[i as int].1 < g.len());
        assert(rv[i as int].1 == row@[i as int].entity);
        match graph.entities[row[i].entity].get_field(name) {
            Some(v) => {
                assert(row_field_from(name@, rv, g, i as int) == v@);
                return v.duplicate();
            },
            None => {},
        }
        i = i + 1;
    }
    null_field()
}

/// The position in a row of the binding with the given name.
pub fn find_binding(row: &Vec<Binding>, alias: &str) -> (r: Option<usize>)
    ensures
        r matches Some(i) ==> i < row.len() && binding_position(row_view(row@), alias@) == Some(
            i as int,
        ),
        r is None ==> binding_position(row_view(row@), alias@) is None,
{
    let ghost rv = row_view(row@);
    let mut i: usize = 0;
    assert(rv.skip(0) == rv);
    while i < row.len()
        invariant
            i <= row.len(),
            rv == row_view(row@),
            binding_position(rv.skip(i as int), alias@) matches Some(k) ==> binding_position(
                rv,
                alias@,
            ) == Some(k + i),
            binding_position(rv.skip(i as int), alias@) is None ==> binding_position(rv, alias@) is None,
        decreases row.len() - i,
    {
        assert(rv.skip(i as int)[0] == rv[i as int]);
        assert(rv.skip(i as int).drop_first() == rv.skip(i + 1));
        if crate::text::str_equal(row[i].alias.as_str(), alias) {
            return Some(i);
        }
        i = i + 1;
    }
    assert(rv.skip(i as int).len() == 0);
    None
}

/// Follows reference fields along a dotted path from an entity, then reads the last field.
fn follow_path_value(path: &Vec<String>, graph: &crate::graph::EntityGraph, start: usize) -> (r: FieldValue)
    requires
        path.len() > 2,
        start < graph.entities.len(),
    ensures
        r@ == follow_path(texts(path@), graph.entities@, start as int, 1),
{
    let ghost ps = texts(path@);
    let ghost g = graph.entities@;
    let mut cur: usize = start;
    let mut i: usize = 1;
    while i < path.len() - 1
        invariant
            1 <= i <= path.len() - 1,
            path.len() > 2,
            cur < graph.entities.len(),
            ps == texts(path@),
            g == graph.entities@,
            follow_path(ps, g, cur as int, i as int) == follow_path(ps, g, start as int, 1),
        decreases path.len() - i,
    {
        assert(ps[i as int] == path@[i as int]@);
        match graph.entities[cur].get_field(path[i].as_str()) {
            Some(FieldValue::Reference(rv)) => {
                let target = match rv {
                    crate::value::ReferenceValue::Entity(id) => id,
                    crate::value::ReferenceValue::Field(id, _) => id,
                };
                match graph.find_entity(target.as_str()) {
                    Some(k) => {
                        cur = k;
                    },
                    None => {
                        return null_field();
                    },
                }
            },
            _ => {
                return null_field();
            },
        }
        i = i + 1;
    }
    let last = path.len() - 1;
    assert(ps.last() == path@[last as int]@);
    entity_field_value(&graph.entities[cur], path[last].as_str())
}

/// The value of a dotted name in a row.
fn compound_field_value(path: &Vec<String>, row: &Vec<Binding>, graph: &crate::graph::EntityGraph) -> (r: QueryResult<FieldValue>)
    requires
        row_valid(row_view(row@), graph.entities@),
    ensures
        compound_value(texts(path@), row_view(row@), graph.entities@) matches Some(x) ==> result_view(r) == x,
{
    let ghost ps = texts(path@);
    if path.len() == 0 {
        return Err(syntax_err("Empty identifier"));
    }
    assert(ps[0] == path@[0]@);
    if path.len() == 1 {
        return Ok(row_field_value(path[0].as_str(), row, graph));
    }
    assert(ps[1] == path@[1]@);
    match find_binding(row, path[0].as_str()) {
        Some(b) => {
            assert(row_view(row@)[b as int].1 == row@[b as int].entity);
            assert(row_view(row@)[b as int].1 < graph.entities@.len());
            if path.len() == 2 {
                Ok(entity_field_value(&graph.entities[row[b].entity], path[1].as_str()))
            } else {
                Ok(follow_path_value(path, graph, row[b].entity))
            }
        },
        None => {
            if path.len() == 2 {
                Ok(row_field_value(path[1].as_str(), row, graph))
            } else {
                Err(QueryError::unknown_entity_type(path[0].as_str()))
            }
        },
    }
}

pub(crate) proof fn lemma_digits_value_nonneg(s: Seq<char>)
    requires
        forall|i: int| 0 <= i < s.len() ==> is_digit(#[trigger] s[i]),
    ensures
        digits_value(s) >= 0,
    decreases s.len(),
{
    if s.len() > 0 {
        assert(is_digit(s[s.len() - 1]));
        lemma_digits_value_nonneg(s.drop_last());
    }
}

/// `str::parse::<i64>`.
#[verifier::loop_isolation(false)]
pub fn parse_int(text: &str) -> (r: Option<i64>)
    ensures
        r == parse_i64(text@),
{
    let cs = chars_of(text);
    let neg = cs.len() > 0 && cs[0] == '-';
    let start: usize = if cs.len() > 0 && (cs[0] == '-' || cs[0] == '+') {
        1
    } else {
        0
    };
    let ghost body = unsigned_part(cs@);
    assert(body == cs@.skip(start as int));
    if cs.len() == start {
        return None;
    }
    let mut v: u128 = 0;
    let mut big = false;
    let mut i: usize = start;
    while i < cs.len()
        invariant
            start <= i <= cs.len(),
            body == cs@.skip(start as int),
            forall|j: int| 0 <= j < i - start ==> is_digit(#[trigger] body[j]),
            !big ==> v == digits_value(body.take(i - start)),
            big ==> digits_value(body.take(i - start)) > 0x1_0000_0000_0000_0000,
            v <= 0x1_0000_0000_0000_0000,
        decreases cs.len() - i,
    {
        let c = cs[i];
        if !('0' <= c && c <= '9') {
            assert(body[i - start] == c);
            assert(!is_digit(body[i - start]));
            return None;
        }
        let ghost prefix = body.take(i - start);
        assert(body.take(i - start + 1).drop_last() == prefix);
        assert(body.take(i - start + 1).last() == c);
        proof {
            lemma_digits_value_nonneg(prefix);
        }
        let d = (c as u32 - '0' as u32) as u128;
        if big || v * 10 + d > 0x1_0000_0000_0000_0000 {
            big = true;
            v = 0;
        } else {
            v = v * 10 + d;
        }
        i = i + 1;
    }
    assert(body.take(body.len() as int) == body);
    if big {
        return None;
    }
    if neg {
        if v <= 0x8000_0000_0000_0000 {
            Some((0 - (v as i128)) as i64)
        } else {
            None
        }
    } else {
        if v <= 0x7fff_ffff_ffff_ffff {
            Some(v as i64)
        } else {
            None
        }
    }
}

/// The value of a literal.
pub fn literal_field_value(l: &Literal) -> (r: QueryResult<FieldValue>)
    ensures
        literal_value(*l) matches Some(x) ==> result_view(r) == x,
{
    match l {
        Literal::Number(n) => match parse_int(n.as_str()) {
            Some(i) => Ok(FieldValue::Integer(i)),
            None => match float_parse(n.as_str()) {
                Some(b) => Ok(FieldValue::Float(b)),
                None => Err(syntax_err("Invalid number format")),
            },
        },
        Literal::Text(s) => Ok(FieldValue::String(s.clone())),
        Literal::Boolean(b) => Ok(FieldValue::Boolean(*b)),
        Literal::Null => Ok(null_field()),
        Literal::Other(d) => Err(QueryError::syntax(concat("Unsupported literal value: ", d.as_str()).as_str(), 0)),
    }
}

} // verus!

verus! {

/// Whether a value counts as true.
pub fn is_truthy(v: &FieldValue) -> (r: bool)
    ensures
        r == truthy(v@),
{
    match v {
        FieldValue::Boolean(b) => *b,
        FieldValue::Integer(i) => *i != 0,
        FieldValue::Float(f) => float_nonzero(*f),
        FieldValue::String(s) => !crate::text::str_equal(s.as_str(), "NULL") && chars_of(s.as_str()).len() > 0,
        _ => false,
    }
}

/// A number as a double.
fn to_double(v: &FieldValue) -> (r: Option<u64>)
    ensures
        r == as_double(v@),
{
    match v {
        FieldValue::Integer(i) => Some(float_from_int(*i)),
        FieldValue::Float(f) => Some(*f),
        _ => None,
    }
}

/// Arithmetic on two values.
fn arithmetic(op: Arith, l: &FieldValue, r: &FieldValue) -> (res: QueryResult<FieldValue>)
    ensures
        arith_value(op, l@, r@) matches Some(x) ==> result_view(res) == x,
{
    match (to_double(l), to_double(r)) {
        (Some(a), Some(b)) => {
            let res = match op {
                Arith::Add => float_add(a, b),
                Arith::Sub => float_sub(a, b),
                Arith::Mul => float_mul(a, b),
                Arith::Div => float_div(a, b),
                Arith::Rem => float_rem(a, b),
            };
            let both_int = match (l, r) {
                (FieldValue::Integer(_), FieldValue::Integer(_)) => true,
                _ => false,
            };
            if both_int && float_is_integral(res) {
                Ok(FieldValue::Integer(float_to_i64(res)))
            } else {
                Ok(FieldValue::Float(res))
            }
        },
        _ => Err(syntax_err("Cannot convert to number")),
    }
}

/// A boolean value.
fn boolean(b: bool) -> (r: QueryResult<FieldValue>)
    ensures
        result_view(r) == Ok::<ValueModel, ErrorModel>(ValueModel::Bool(b)),
{
    Ok(FieldValue::Boolean(b))
}

/// A binary operator applied to two values.
pub fn apply_binary(l: &FieldValue, op: &BinaryOp, r: &FieldValue) -> (res: QueryResult<FieldValue>)
    ensures
        binary_value(l@, *op, r@) matches Some(x) ==> result_view(res) == x,
{
    match op {
        BinaryOp::Eq => boolean(matches!(l.compare(r), Some(Order::Equal))),
        BinaryOp::NotEq => boolean(!matches!(l.compare(r), Some(Order::Equal))),
        BinaryOp::Lt => boolean(matches!(l.compare(r), Some(Order::Less))),
        BinaryOp::LtEq => {
            let c = l.compare(r);
            boolean(matches!(c, Some(Order::Less) | Some(Order::Equal)))
        },
        BinaryOp::Gt => boolean(matches!(l.compare(r), Some(Order::Greater))),
        BinaryOp::GtEq => {
            let c = l.compare(r);
            boolean(matches!(c, Some(Order::Greater) | Some(Order::Equal)))
        },
        BinaryOp::And => boolean(is_truthy(l) && is_truthy(r)),
        BinaryOp::Or => boolean(is_truthy(l) || is_truthy(r)),
        BinaryOp::Plus => arithmetic(Arith::Add, l, r),
        BinaryOp::Minus => arithmetic(Arith::Sub, l, r),
        BinaryOp::Multiply => arithmetic(Arith::Mul, l, r),
        BinaryOp::Divide => arithmetic(Arith::Div, l, r),
        BinaryOp::Modulo => arithmetic(Arith::Rem, l, r),
        BinaryOp::Other(d) => Err(
            QueryError::syntax(concat("Unsupported binary operator: ", d.as_str()).as_str(), 0),
        ),
    }
}

/// A unary operator applied to a value.
pub fn apply_unary(op: &UnaryOp, v: FieldValue) -> (res: QueryResult<FieldValue>)
    ensures
        unary_value(*op, v@) matches Some(x) ==> result_view(res) == x,
{
    match op {
        UnaryOp::Not => boolean(!is_truthy(&v)),
        UnaryOp::Plus => Ok(v),
        UnaryOp::Minus => match v {
            FieldValue::Integer(i) => {
                if i == i64::MIN {
                    Ok(FieldValue::Integer(i))
                } else {
                    Ok(FieldValue::Integer(-i))
                }
            },
            FieldValue::Float(f) => Ok(FieldValue::Float(float_neg(f))),
            _ => Err(syntax_err("Cannot negate non-numeric value")),
        },
        UnaryOp::Other(d) => Err(
            QueryError::syntax(concat("Unsupported unary operator: ", d.as_str()).as_str(), 0),
        ),
    }
}

/// The text that LIKE matches a value by.
fn like_text_of(v: &FieldValue) -> (r: QueryResult<String>)
    ensures
        match like_text(v@) {
            Ok(t) => r matches Ok(s) && s@ == t,
            Err(e) => r matches Err(x) && x@ == e,
        },
{
    if v.is_list() {
        Err(syntax_err("LIKE pattern matching not supported for List fields"))
    } else {
        Ok(v.scalar_to_text())
    }
}

/// `text [NOT] [I]LIKE pattern` on two values.
pub fn like_values(t: &FieldValue, p: &FieldValue, negated: bool, ci: bool) -> (r: QueryResult<FieldValue>)
    ensures
        like_value(t@, p@, negated, ci) == Some(result_view(r)),
{
    let ts = match like_text_of(t) {
        Ok(s) => s,
        Err(e) => {
            return Err(e);
        },
    };
    let ps = match like_text_of(p) {
        Ok(s) => s,
        Err(e) => {
            return Err(e);
        },
    };
    let (a, b) = if ci {
        (to_lowercase(ts.as_str()), to_lowercase(ps.as_str()))
    } else {
        (ts, ps)
    };
    let m = like_match(&chars_of(a.as_str()), &chars_of(b.as_str()));
    Ok(FieldValue::Boolean(m != negated))
}

/// The parts of a name joined by dots.
pub fn join_with_dots(parts: &Vec<String>) -> (r: String)
    ensures
        r@ == join_dot(texts(parts@)),
{
    let ghost ps = texts(parts@);
    let mut s = String::new();
    let mut i: usize = 0;
    while i < parts.len()
        invariant
            i <= parts.len(),
            ps == texts(parts@),
            s@ == join_dot(ps.take(i as int)),
        decreases parts.len() - i,
    {
        assert(ps.take(i + 1).drop_last() == ps.take(i as int));
        assert(ps.take(i + 1).last() == parts@[i as int]@);
        if i > 0 {
            vstd::string::StringExecFns::append(&mut s, ".");
        } else {
            assert(ps.take(0).len() == 0);
        }
        vstd::string::StringExecFns::append(&mut s, parts[i].as_str());
        i = i + 1;
    }
    assert(ps.take(parts.len() as int) == ps);
    s
}

} // verus!

verus! {

/// A boolean outcome or its error.
pub open spec fn flag_view(r: QueryResult<bool>) -> Result<bool, ErrorModel> {
    match r {
        Ok(b) => Ok(b),
        Err(e) => Err(e@),
    }
}

/// A double outcome or its error.
pub open spec fn double_view(r: QueryResult<u64>) -> Result<u64, ErrorModel> {
    match r {
        Ok(b) => Ok(b),
        Err(e) => Err(e@),
    }
}

/// The model of an optional value.
pub open spec fn option_view(o: Option<FieldValue>) -> Option<ValueModel> {
    match o {
        Some(v) => Some(v@),
        None => None,
    }
}

/// The name of an aggregate.
fn aggregate_label(a: &Aggregate) -> (r: &'static str)
    ensures
        r@ == aggregate_name(*a),
{
    match a {
        Aggregate::Max => "MAX",
        Aggregate::Min => "MIN",
        Aggregate::Sum => "SUM",
        Aggregate::Avg => "AVG",
    }
}

/// The value of an expression on a row of entities of the graph.
pub fn evaluate(e: &Expression, row: &Vec<Binding>, graph: &crate::graph::EntityGraph) -> (r: QueryResult<FieldValue>)
    requires
        row_valid(row_view(row@), graph.entities@),
    ensures
        eval(*e, row_view(row@), graph.entities@) matches Some(x) ==> result_view(r) == x,
    decreases e, 0int,
{
    match e {
        Expression::Identifier(name) => Ok(row_field_value(name.as_str(), row, graph)),
        Expression::CompoundIdentifier(parts) => compound_field_value(parts, row, graph),
        Expression::Value(l) => literal_field_value(l),
        Expression::BinaryOp(l, op, r) => {
            let lv = evaluate(l, row, graph)?;
            let rv = evaluate(r, row, graph)?;
            apply_binary(&lv, op, &rv)
        },
        Expression::UnaryOp(op, x) => {
            let v = evaluate(x, row, graph)?;
            apply_unary(op, v)
        },
        Expression::Function(f) => evaluate_function(f, row, graph),
        Expression::Nested(x) => evaluate(x, row, graph),
        Expression::IsNull(x) => {
            let v = evaluate(x, row, graph)?;
            Ok(FieldValue::Boolean(is_null(&v)))
        },
        Expression::IsNotNull(x) => {
            let v = evaluate(x, row, graph)?;
            Ok(FieldValue::Boolean(!is_null(&v)))
        },
        Expression::InList(x, list, negated) => {
            let t = evaluate(x, row, graph)?;
            let found = in_list_search(&t, list, row, graph)?;
            Ok(FieldValue::Boolean(found != *negated))
        },
        Expression::Like(x, p, negated, ci) => {
            let t = evaluate(x, row, graph)?;
            let pv = evaluate(p, row, graph)?;
            like_values(&t, &pv, *negated, *ci)
        },
        Expression::Unsupported(d) => Err(
            QueryError::syntax(concat("Unsupported expression: ", d.as_str()).as_str(), 0),
        ),
    }
}

/// Whether a value is the text `NULL`.
pub fn is_null(v: &FieldValue) -> (r: bool)
    ensures
        r == (v@ == null_value()),
{
    match v {
        FieldValue::String(s) => crate::text::str_equal(s.as_str(), "NULL"),
        _ => false,
    }
}

/// Whether a value equals one of the list's items, evaluated in order.
fn in_list_search(t: &FieldValue, list: &Vec<Expression>, row: &Vec<Binding>, graph: &crate::graph::EntityGraph) -> (r: QueryResult<bool>)
    requires
        row_valid(row_view(row@), graph.entities@),
    ensures
        in_list(t@, list@, 0, row_view(row@), graph.entities@) matches Some(x) ==> flag_view(r) == x,
    decreases list, 0int,
{
    let ghost rv = row_view(row@);
    let ghost g = graph.entities@;
    let mut i: usize = 0;
    while i < list.len()
        invariant
            i <= list.len(),
            rv == row_view(row@),
            g == graph.entities@,
            row_valid(rv, g),
            in_list(t@, list@, 0, rv, g) is Some ==> in_list(t@, list@, i as int, rv, g) == in_list(
                t@,
                list@,
                0,
                rv,
                g,
            ),
        decreases list.len() - i,
    {
        assert(decreases_to!(list => list@[i as int]));
        let v = evaluate(&list[i], row, graph)?;
        if matches!(t.compare(&v), Some(Order::Equal)) {
            return Ok(true);
        }
        i = i + 1;
    }
    Ok(false)
}

/// The value of a function call on a row.
fn evaluate_function(f: &FunctionCall, row: &Vec<Binding>, graph: &crate::graph::EntityGraph) -> (r: QueryResult<FieldValue>)
    requires
        row_valid(row_view(row@), graph.entities@),
    ensures
        eval_function(*f, row_view(row@), graph.entities@) matches Some(x) ==> result_view(r) == x,
    decreases f, 0int,
{
    let joined = join_with_dots(&f.name);
    let name = to_uppercase(joined.as_str());
    if crate::text::str_equal(name.as_str(), "COUNT") {
        Ok(FieldValue::Integer(row.len() as i64))
    } else if crate::text::str_equal(name.as_str(), "MAX") {
        evaluate_aggregate(&Aggregate::Max, &f.args, row, graph)
    } else if crate::text::str_equal(name.as_str(), "MIN") {
        evaluate_aggregate(&Aggregate::Min, &f.args, row, graph)
    } else if crate::text::str_equal(name.as_str(), "SUM") {
        evaluate_aggregate(&Aggregate::Sum, &f.args, row, graph)
    } else if crate::text::str_equal(name.as_str(), "AVG") {
        evaluate_aggregate(&Aggregate::Avg, &f.args, row, graph)
    } else {
        Err(QueryError::syntax(concat("Unsupported function: ", name.as_str()).as_str(), 0))
    }
}

/// An aggregate over the row's entities.
fn evaluate_aggregate(a: &Aggregate, args: &CallArgs, row: &Vec<Binding>, graph: &crate::graph::EntityGraph) -> (r: QueryResult<FieldValue>)
    requires
        row_valid(row_view(row@), graph.entities@),
    ensures
        eval_aggregate(*a, *args, row_view(row@), graph.entities@) matches Some(x) ==> result_view(r) == x,
    decreases args, 0int,
{
    match args {
        CallArgs::List(list) => {
            if list.len() != 1 {
                return Err(
                    QueryError::syntax(
                        concat(aggregate_label(a), " function requires exactly one argument").as_str(),
                        0,
                    ),
                );
            }
            assert(decreases_to!(list => list@[0]));
            match a {
                Aggregate::Max => extreme_value(&list[0], row, graph, true),
                Aggregate::Min => extreme_value(&list[0], row, graph, false),
                Aggregate::Sum => Ok(FieldValue::Float(total_value(&list[0], row, graph)?)),
                Aggregate::Avg => {
                    if row.len() == 0 {
                        return Err(syntax_err("No values to compute AVG"));
                    }
                    let count = float_from_int(row.len() as i64);
                    let s = total_value(&list[0], row, graph)?;
                    Ok(FieldValue::Float(float_div(s, count)))
                },
            }
        },
        _ => Err(
            QueryError::syntax(concat(aggregate_label(a), " function requires arguments").as_str(), 0),
        ),
    }
}

/// The argument of an aggregate evaluated on the row's entity at position `i`.
fn argument_on(arg: &CallArg, row: &Vec<Binding>, graph: &crate::graph::EntityGraph, i: usize) -> (r: QueryResult<FieldValue>)
    requires
        row_valid(row_view(row@), graph.entities@),
        i < row.len(),
    ensures
        argument_value(*arg, row_view(row@), graph.entities@, i as int) matches Some(x) ==> result_view(r) == x,
    decreases arg, 0int,
{
    match arg {
        CallArg::Expr(x) => {
            let single = vec![Binding { alias: String::new(), entity: row[i].entity }];
            assert(row_view(single@) =~= single_row(row_view(row@)[i as int].1));
            assert(row_view(row@)[i as int].1 < graph.entities@.len());
            evaluate(x, &single, graph)
        },
        CallArg::Other => Err(syntax_err("Unsupported function argument")),
    }
}

/// The greatest (or least) value of an aggregate's argument over the row's entities.
fn extreme_value(arg: &CallArg, row: &Vec<Binding>, graph: &crate::graph::EntityGraph, greatest: bool) -> (r: QueryResult<FieldValue>)
    requires
        row_valid(row_view(row@), graph.entities@),
    ensures
        extreme(*arg, row_view(row@), graph.entities@, 0, None, greatest) matches Some(x) ==> result_view(r) == x,
    decreases arg, 1int,
{
    let ghost rv = row_view(row@);
    let ghost g = graph.entities@;
    let mut best: Option<FieldValue> = None;
    let mut i: usize = 0;
    while i < row.len()
        invariant
            i <= row.len(),
            rv == row_view(row@),
            g == graph.entities@,
            row_valid(rv, g),
            extreme(*arg, rv, g, 0, None, greatest) is Some ==> extreme(
                *arg,
                rv,
                g,
                i as int,
                option_view(best),
                greatest,
            ) == extreme(*arg, rv, g, 0, None, greatest),
        decreases row.len() - i,
    {
        let v = argument_on(arg, row, graph, i)?;
        let replace = match &best {
            None => true,
            Some(b) => {
                let c = match v.compare(b) {
                    Some(o) => o,
                    None => Order::Equal,
                };
                if greatest {
                    matches!(c, Order::Greater)
                } else {
                    matches!(c, Order::Less)
                }
            },
        };
        if replace {
            best = Some(v);
        }
        i = i + 1;
    }
    match best {
        Some(b) => Ok(b),
        None => {
            if greatest {
                Err(syntax_err("No values to compute MAX"))
            } else {
                Err(syntax_err("No values to compute MIN"))
            }
        },
    }
}

/// The sum, on doubles, of an aggregate's argument over the row's entities.
fn total_value(arg: &CallArg, row: &Vec<Binding>, graph: &crate::graph::EntityGraph) -> (r: QueryResult<u64>)
    requires
        row_valid(row_view(row@), graph.entities@),
    ensures
        total(*arg, row_view(row@), graph.entities@, 0, 0) matches Some(x) ==> double_view(r) == x,
    decreases arg, 1int,
{
    let ghost rv = row_view(row@);
    let ghost g = graph.entities@;
    let mut acc: u64 = 0;
    let mut i: usize = 0;
    while i < row.len()
        invariant
            i <= row.len(),
            rv == row_view(row@),
            g == graph.entities@,
            row_valid(rv, g),
            total(*arg, rv, g, 0, 0) is Some ==> total(*arg, rv, g, i as int, acc) == total(
                *arg,
                rv,
                g,
                0,
                0,
            ),
        decreases row.len() - i,
    {
        let v = argument_on(arg, row, graph, i)?;
        match to_double(&v) {
            Some(d) => {
                acc = float_add(acc, d);
            },
            None => {
                return Err(syntax_err("Cannot convert to number"));
            },
        }
        i = i + 1;
    }
    Ok(acc)
}

} // verus!
