use vstd::prelude::*;
use sqlparser::ast as sa;
use sqlparser::dialect::GenericDialect;
use sqlparser::parser::Parser;
use crate::ast::{
    BinaryOp, CallArg, CallArgs, Expression, FromItem, FunctionCall, JoinClause, JoinCondition,
    JoinKind, Literal, OrderItem, ParsedQuery, ParsedStatement, Projection, QueryBody,
    SelectClause, TableRef, UnaryOp,
};

verus! {

// The SQL text of a query is parsed by `sqlparser` with its generic dialect; its syntax
// tree is then turned, node for node, into this library's syntax tree, which keeps the
// parts that queries are evaluated on and the debug text of everything else.

#[verifier::external_type_specification]
#[verifier::external_body]
pub struct ExSqlStatement(sa::Statement);

#[verifier::external_type_specification]
#[verifier::external_body]
pub struct ExSqlQuery(sa::Query);

#[verifier::external_type_specification]
#[verifier::external_body]
pub struct ExSqlSelect(sa::Select);

#[verifier::external_type_specification]
#[verifier::external_body]
pub struct ExSqlExpr(sa::Expr);

#[verifier::external_type_specification]
#[verifier::external_body]
pub struct ExSqlValue(sa::Value);

#[verifier::external_type_specification]
#[verifier::external_body]
pub struct ExSqlBinaryOperator(sa::BinaryOperator);

#[verifier::external_type_specification]
#[verifier::external_body]
pub struct ExSqlUnaryOperator(sa::UnaryOperator);

#[verifier::external_type_specification]
#[verifier::external_body]
pub struct ExSqlFunction(sa::Function);

#[verifier::external_type_specification]
#[verifier::external_body]
pub struct ExSqlFunctionArg(sa::FunctionArg);

#[verifier::external_type_specification]
#[verifier::external_body]
pub struct ExSqlIdent(sa::Ident);

#[verifier::external_type_specification]
#[verifier::external_body]
pub struct ExSqlSelectItem(sa::SelectItem);

#[verifier::external_type_specification]
#[verifier::external_body]
pub struct ExSqlTableFactor(sa::TableFactor);

#[verifier::external_type_specification]
#[verifier::external_body]
pub struct ExSqlTableWithJoins(sa::TableWithJoins);

#[verifier::external_type_specification]
#[verifier::external_body]
pub struct ExSqlJoin(sa::Join);

#[verifier::external_type_specification]
#[verifier::external_body]
pub struct ExSqlJoinConstraint(sa::JoinConstraint);

#[verifier::external_type_specification]
#[verifier::external_body]
pub struct ExSqlOrderByExpr(sa::OrderByExpr);

/// What `sqlparser` parses a text into, with the generic dialect, as this library's
/// syntax tree; or the text of its parse error.
pub uninterp spec fn sql_statements(text: Seq<char>) -> Result<Seq<ParsedStatement>, Seq<char>>;

/// The statements of a parse, or the text of its error.
pub open spec fn parsed_view(r: Result<Vec<ParsedStatement>, String>) -> Result<Seq<ParsedStatement>, Seq<char>> {
    match r {
        Ok(v) => Ok(v@),
        Err(e) => Err(e@),
    }
}

/// Parses SQL text with `sqlparser::parser::Parser::parse_sql` and the generic dialect,
/// turning its error into its text (`Display`).
#[verifier::external_body]
pub fn parse_sql(text: &str) -> (r: Result<Vec<ParsedStatement>, String>)
    ensures
        parsed_view(r) == sql_statements(text@),
{
    match Parser::parse_sql(&GenericDialect {}, text) {
        Ok(v) => Ok(v.iter().map(statement).collect()),
        Err(e) => Err(e.to_string()),
    }
}

/// The values of identifiers.
#[verifier::external_body]
fn names(ids: &[sa::Ident]) -> Vec<String> {
    ids.iter().map(|i| i.value.clone()).collect()
}

/// A statement of `sqlparser`'s tree in this library's tree.
#[verifier::external_body]
fn statement(s: &sa::Statement) -> ParsedStatement {
    match s {
        sa::Statement::Query(q) => ParsedStatement::Query(query(q)),
        _ => ParsedStatement::Other,
    }
}

/// A query of `sqlparser`'s tree in this library's tree.
#[verifier::external_body]
fn query(q: &sa::Query) -> ParsedQuery {
    ParsedQuery {
        body: match &*q.body {
            sa::SetExpr::Select(s) => QueryBody::Select(select(s)),
            _ => QueryBody::Other,
        },
        order_by: q.order_by.as_ref().map(|o| o.exprs.iter().map(order_by).collect()),
        limit: q.limit.as_ref().map(expr),
        offset: q.offset.as_ref().map(|o| expr(&o.value)),
    }
}

/// An ORDER BY item of `sqlparser`'s tree in this library's tree.
#[verifier::external_body]
fn order_by(o: &sa::OrderByExpr) -> OrderItem {
    OrderItem { expr: expr(&o.expr), asc: o.asc }
}

/// A SELECT of `sqlparser`'s tree in this library's tree.
#[verifier::external_body]
fn select(s: &sa::Select) -> SelectClause {
    SelectClause {
        projection: s.projection.iter().map(select_item).collect(),
        from: s.from.iter().map(table_with_joins).collect(),
        selection: s.selection.as_ref().map(expr),
    }
}

/// A SELECT item of `sqlparser`'s tree in this library's tree.
#[verifier::external_body]
fn select_item(i: &sa::SelectItem) -> Projection {
    match i {
        sa::SelectItem::UnnamedExpr(e) => Projection::UnnamedExpr(expr(e)),
        sa::SelectItem::ExprWithAlias { expr: e, alias } => Projection::ExprWithAlias(
            expr(e),
            alias.value.clone(),
        ),
        sa::SelectItem::QualifiedWildcard(n, _) => Projection::QualifiedWildcard(names(&n.0)),
        sa::SelectItem::Wildcard(_) => Projection::Wildcard,
    }
}

/// A table with its joins of `sqlparser`'s tree in this library's tree.
#[verifier::external_body]
fn table_with_joins(t: &sa::TableWithJoins) -> FromItem {
    FromItem { relation: table(&t.relation), joins: t.joins.iter().map(join).collect() }
}

/// A table of `sqlparser`'s tree in this library's tree.
#[verifier::external_body]
fn table(t: &sa::TableFactor) -> TableRef {
    match t {
        sa::TableFactor::Table { name, alias, .. } => TableRef::Table(
            names(&name.0),
            alias.as_ref().map(|a| a.name.value.clone()),
        ),
        _ => TableRef::Other,
    }
}

/// A join of `sqlparser`'s tree in this library's tree.
#[verifier::external_body]
fn join(j: &sa::Join) -> JoinClause {
    let operator = match &j.join_operator {
        sa::JoinOperator::Inner(c) => JoinKind::Inner(constraint(c)),
        sa::JoinOperator::LeftOuter(c) => JoinKind::LeftOuter(constraint(c)),
        sa::JoinOperator::RightOuter(c) => JoinKind::RightOuter(constraint(c)),
        sa::JoinOperator::FullOuter(c) => JoinKind::FullOuter(constraint(c)),
        sa::JoinOperator::CrossJoin => JoinKind::CrossJoin,
        _ => JoinKind::Other,
    };
    JoinClause { relation: table(&j.relation), operator }
}

/// A join condition of `sqlparser`'s tree in this library's tree.
#[verifier::external_body]
fn constraint(c: &sa::JoinConstraint) -> JoinCondition {
    match c {
        sa::JoinConstraint::On(e) => JoinCondition::On(expr(e)),
        sa::JoinConstraint::Using(ids) => JoinCondition::Using(names(ids)),
        sa::JoinConstraint::Natural => JoinCondition::Natural,
        sa::JoinConstraint::None => JoinCondition::Absent,
    }
}

/// An expression of `sqlparser`'s tree in this library's tree, boxed.
#[verifier::external_body]
fn boxed(e: &sa::Expr) -> Box<Expression> {
    Box::new(expr(e))
}

/// An expression of `sqlparser`'s tree in this library's tree.
#[verifier::external_body]
fn expr(e: &sa::Expr) -> Expression {
    match e {
        sa::Expr::Identifier(i) => Expression::Identifier(i.value.clone()),
        sa::Expr::CompoundIdentifier(ids) => Expression::CompoundIdentifier(names(ids)),
        sa::Expr::Value(v) => Expression::Value(literal(v)),
        sa::Expr::BinaryOp { left, op, right } => Expression::BinaryOp(
            boxed(left),
            binary_operator(op),
            boxed(right),
        ),
        sa::Expr::UnaryOp { op, expr: x } => Expression::UnaryOp(unary_operator(op), boxed(x)),
        sa::Expr::Function(f) => Expression::Function(function(f)),
        _ => predicate_expr(e),
    }
}

/// A test expression (or anything else) of `sqlparser`'s tree in this library's tree.
#[verifier::external_body]
fn predicate_expr(e: &sa::Expr) -> Expression {
    match e {
        sa::Expr::Nested(x) => Expression::Nested(boxed(x)),
        sa::Expr::IsNull(x) => Expression::IsNull(boxed(x)),
        sa::Expr::IsNotNull(x) => Expression::IsNotNull(boxed(x)),
        sa::Expr::InList { expr: x, list, negated } => Expression::InList(
            boxed(x),
            list.iter().map(expr).collect(),
            *negated,
        ),
        sa::Expr::Like { negated, expr: x, pattern, .. } => Expression::Like(boxed(x), boxed(pattern), *negated, false),
        sa::Expr::ILike { negated, expr: x, pattern, .. } => Expression::Like(boxed(x), boxed(pattern), *negated, true),
        _ => Expression::Unsupported(format!("{:?}", e)),
    }
}

/// A literal of `sqlparser`'s tree in this library's tree.
#[verifier::external_body]
fn literal(v: &sa::Value) -> Literal {
    match v {
        sa::Value::Number(n, _) => Literal::Number(n.clone()),
        sa::Value::SingleQuotedString(s) => Literal::Text(s.clone()),
        sa::Value::DoubleQuotedString(s) => Literal::Text(s.clone()),
        sa::Value::Boolean(b) => Literal::Boolean(*b),
        sa::Value::Null => Literal::Null,
        _ => Literal::Other(format!("{:?}", v)),
    }
}

/// A comparison or logical operator of `sqlparser`'s tree in this library's tree.
#[verifier::external_body]
fn binary_operator(op: &sa::BinaryOperator) -> BinaryOp {
    match op {
        sa::BinaryOperator::Eq => BinaryOp::Eq,
        sa::BinaryOperator::NotEq => BinaryOp::NotEq,
        sa::BinaryOperator::Lt => BinaryOp::Lt,
        sa::BinaryOperator::LtEq => BinaryOp::LtEq,
        sa::BinaryOperator::Gt => BinaryOp::Gt,
        sa::BinaryOperator::GtEq => BinaryOp::GtEq,
        sa::BinaryOperator::And => BinaryOp::And,
        sa::BinaryOperator::Or => BinaryOp::Or,
        _ => arithmetic_operator(op),
    }
}

/// An arithmetic operator (or any other) of `sqlparser`'s tree in this library's tree.
#[verifier::external_body]
fn arithmetic_operator(op: &sa::BinaryOperator) -> BinaryOp {
    match op {
        sa::BinaryOperator::Plus => BinaryOp::Plus,
        sa::BinaryOperator::Minus => BinaryOp::Minus,
        sa::BinaryOperator::Multiply => BinaryOp::Multiply,
        sa::BinaryOperator::Divide => BinaryOp::Divide,
        sa::BinaryOperator::Modulo => BinaryOp::Modulo,
        _ => BinaryOp::Other(format!("{:?}", op)),
    }
}

/// A unary operator of `sqlparser`'s tree in this library's tree.
#[verifier::external_body]
fn unary_operator(op: &sa::UnaryOperator) -> UnaryOp {
    match op {
        sa::UnaryOperator::Not => UnaryOp::Not,
        sa::UnaryOperator::Plus => UnaryOp::Plus,
        sa::UnaryOperator::Minus => UnaryOp::Minus,
        _ => UnaryOp::Other(format!("{:?}", op)),
    }
}

/// A function call of `sqlparser`'s tree in this library's tree.
#[verifier::external_body]
fn function(f: &sa::Function) -> FunctionCall {
    let args = match &f.args {
        sa::FunctionArguments::None => CallArgs::Bare,
        sa::FunctionArguments::Subquery(_) => CallArgs::Subquery,
        sa::FunctionArguments::List(l) => CallArgs::List(l.args.iter().map(function_arg).collect()),
    };
    FunctionCall { name: names(&f.name.0), args }
}

/// A function argument of `sqlparser`'s tree in this library's tree.
#[verifier::external_body]
fn function_arg(a: &sa::FunctionArg) -> CallArg {
    match a {
        sa::FunctionArg::Unnamed(sa::FunctionArgExpr::Expr(e)) => CallArg::Expr(expr(e)),
        _ => CallArg::Other,
    }
}

} // verus!
