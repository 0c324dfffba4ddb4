use vstd::prelude::*;

verus! {

/// A literal value in a query.
pub enum Literal {
    /// A number, as written.
    Number(String),
    /// A quoted string.
    Text(String),
    Boolean(bool),
    Null,
    /// Any other literal, by its debug text.
    Other(String),
}

/// A binary operator.
pub enum BinaryOp {
    Eq,
    NotEq,
    Lt,
    LtEq,
    Gt,
    GtEq,
    And,
    Or,
    Plus,
    Minus,
    Multiply,
    Divide,
    Modulo,
    /// Any other operator, by its debug text.
    Other(String),
}

/// A unary operator.
pub enum UnaryOp {
    Not,
    Plus,
    Minus,
    /// Any other operator, by its debug text.
    Other(String),
}

/// An argument of a function call.
pub enum CallArg {
    /// An unnamed argument that is an expression.
    Expr(Expression),
    /// Any other argument (named, or a wildcard).
    Other,
}

/// The arguments of a function call.
pub enum CallArgs {
    /// No parentheses at all.
    Bare,
    /// A bare subquery.
    Subquery,
    /// A parenthesised argument list.
    List(Vec<CallArg>),
}

/// A function call.
pub struct FunctionCall {
    /// The parts of the function's name.
    pub name: Vec<String>,
    pub args: CallArgs,
}

/// An expression of a query.
pub enum Expression {
    Identifier(String),
    /// A dotted name, by its parts.
    CompoundIdentifier(Vec<String>),
    Value(Literal),
    BinaryOp(Box<Expression>, BinaryOp, Box<Expression>),
    UnaryOp(UnaryOp, Box<Expression>),
    Function(FunctionCall),
    Nested(Box<Expression>),
    IsNull(Box<Expression>),
    IsNotNull(Box<Expression>),
    /// `expr [NOT] IN (list)`: the expression, the list, and whether it is negated.
    InList(Box<Expression>, Vec<Expression>, bool),
    /// `expr [NOT] LIKE pattern` or `ILIKE`: the expression, the pattern, whether it is
    /// negated, and whether it ignores case.
    Like(Box<Expression>, Box<Expression>, bool, bool),
    /// Any other expression, by its debug text.
    Unsupported(String),
}

/// An item of a SELECT list.
pub enum Projection {
    UnnamedExpr(Expression),
    ExprWithAlias(Expression, String),
    /// `*`
    Wildcard,
    /// `name.*`, by the parts of the name.
    QualifiedWildcard(Vec<String>),
}

/// A table in a FROM clause.
pub enum TableRef {
    /// A named table (by the parts of its name) with an optional alias.
    Table(Vec<String>, Option<String>),
    /// Anything else (a subquery, a function, ...).
    Other,
}

/// The condition of a join.
pub enum JoinCondition {
    On(Expression),
    Using(Vec<String>),
    Natural,
    Absent,
}

/// The kind of a join.
pub enum JoinKind {
    Inner(JoinCondition),
    LeftOuter(JoinCondition),
    RightOuter(JoinCondition),
    FullOuter(JoinCondition),
    CrossJoin,
    /// Any other kind of join.
    Other,
}

/// A join to a further table.
pub struct JoinClause {
    pub relation: TableRef,
    pub operator: JoinKind,
}

/// A table with the joins that follow it.
pub struct FromItem {
    pub relation: TableRef,
    pub joins: Vec<JoinClause>,
}

/// A SELECT.
pub struct SelectClause {
    pub projection: Vec<Projection>,
    pub from: Vec<FromItem>,
    pub selection: Option<Expression>,
}

/// The body of a query.
pub enum QueryBody {
    Select(SelectClause),
    /// A set operation, VALUES, or anything else.
    Other,
}

/// An ORDER BY item.
pub struct OrderItem {
    pub expr: Expression,
    pub asc: Option<bool>,
}

/// A query.
pub struct ParsedQuery {
    pub body: QueryBody,
    pub order_by: Option<Vec<OrderItem>>,
    pub limit: Option<Expression>,
    pub offset: Option<Expression>,
}

/// A statement.
pub enum ParsedStatement {
    Query(ParsedQuery),
    /// Any statement that is not a query.
    Other,
}

} // verus!
