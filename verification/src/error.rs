use vstd::prelude::*;
use vstd::string::StringExecFns;
use crate::text::{digits, usize_to_text};

verus! {

/// Errors that can occur during query parsing and execution.
#[derive(Debug)]
pub enum QueryError {
    /// Syntax error in the query string.
    SyntaxError { message: String, position: usize },
    /// Unknown entity type referenced in the query.
    UnknownEntityType { entity_type: String },
    /// Unknown field referenced in the query.
    UnknownField { field: String, entity_type: String },
    /// Type mismatch in comparison operations.
    TypeMismatch { left_type: String, right_type: String },
    /// Invalid function call or arguments.
    InvalidFunction { function: String, args: String },
    /// Runtime error during query execution.
    ExecutionError { message: String },
    /// Error when parsing literal values.
    InvalidLiteral { literal: String },
    /// Error when a required entity reference cannot be resolved.
    UnresolvedReference { reference: String },
    /// Error when attempting an unsupported operation.
    UnsupportedOperation { operation: String },
    /// Error when query contains invalid SQL syntax.
    InvalidSyntax { details: String },
    /// Error when accessing non-existent columns in result set.
    ColumnNotFound { column: String },
}

/// Result type for query operations.
pub type QueryResult<T> = Result<T, QueryError>;

/// Mathematical model of a query error.
pub enum ErrorModel {
    Syntax(Seq<char>, nat),
    UnknownEntityType(Seq<char>),
    UnknownField(Seq<char>, Seq<char>),
    TypeMismatch(Seq<char>, Seq<char>),
    InvalidFunction(Seq<char>, Seq<char>),
    Execution(Seq<char>),
    InvalidLiteral(Seq<char>),
    UnresolvedReference(Seq<char>),
    UnsupportedOperation(Seq<char>),
    InvalidSyntax(Seq<char>),
    ColumnNotFound(Seq<char>),
}

impl View for QueryError {
    type V = ErrorModel;

    open spec fn view(&self) -> ErrorModel {
        match self {
            QueryError::SyntaxError { message, position } => ErrorModel::Syntax(
                message@,
                *position as nat,
            ),
            QueryError::UnknownEntityType { entity_type } => ErrorModel::UnknownEntityType(
                entity_type@,
            ),
            QueryError::UnknownField { field, entity_type } => ErrorModel::UnknownField(
                field@,
                entity_type@,
            ),
            QueryError::TypeMismatch { left_type, right_type } => ErrorModel::TypeMismatch(
                left_type@,
                right_type@,
            ),
            QueryError::InvalidFunction { function, args } => ErrorModel::InvalidFunction(
                function@,
                args@,
            ),
            QueryError::ExecutionError { message } => ErrorModel::Execution(message@),
            QueryError::InvalidLiteral { literal } => ErrorModel::InvalidLiteral(literal@),
            QueryError::UnresolvedReference { reference } => ErrorModel::UnresolvedReference(
                reference@,
            ),
            QueryError::UnsupportedOperation { operation } => ErrorModel::UnsupportedOperation(
                operation@,
            ),
            QueryError::InvalidSyntax { details } => ErrorModel::InvalidSyntax(details@),
            QueryError::ColumnNotFound { column } => ErrorModel::ColumnNotFound(column@),
        }
    }
}

/// The text of an error, as its `Display` writes it.
pub open spec fn error_text(e: ErrorModel) -> Seq<char> {
    match e {
        ErrorModel::Syntax(m, p) => "Syntax error: "@ + m + " at position "@ + digits(p),
        ErrorModel::UnknownEntityType(t) => "Unknown entity type: "@ + t,
        ErrorModel::UnknownField(f, t) => "Unknown field '"@ + f + "' on entity type '"@ + t
            + "'"@,
        ErrorModel::TypeMismatch(l, r) => "Type mismatch: cannot compare "@ + l + " with "@ + r,
        ErrorModel::InvalidFunction(f, a) => "Invalid function: "@ + f + "("@ + a + ")"@,
        ErrorModel::Execution(m) => "Execution error: "@ + m,
        ErrorModel::InvalidLiteral(l) => "Invalid literal: "@ + l,
        ErrorModel::UnresolvedReference(r) => "Cannot resolve reference: "@ + r,
        ErrorModel::UnsupportedOperation(o) => "Unsupported operation: "@ + o,
        ErrorModel::InvalidSyntax(d) => "Invalid SQL syntax: "@ + d,
        ErrorModel::ColumnNotFound(c) => "Column '"@ + c + "' not found in result set"@,
    }
}

/// A new string holding the given text.
pub fn owned(s: &str) -> (r: String)
    ensures
        r@ == s@,
{
    String::from_str(s)
}

/// The concatenation of two texts.
pub fn concat(a: &str, b: &str) -> (r: String)
    ensures
        r@ == a@ + b@,
{
    let mut s = String::from_str(a);
    s.append(b);
    s
}

impl QueryError {
    /// Create a new syntax error.
    pub fn syntax(message: &str, position: usize) -> (r: Self)
        ensures
            r@ == ErrorModel::Syntax(message@, position as nat),
    {
        QueryError::SyntaxError { message: owned(message), position }
    }

    /// Create a new unknown entity type error.
    pub fn unknown_entity_type(entity_type: &str) -> (r: Self)
        ensures
            r@ == ErrorModel::UnknownEntityType(entity_type@),
    {
        QueryError::UnknownEntityType { entity_type: owned(entity_type) }
    }

    /// Create a new unknown field error.
    pub fn unknown_field(field: &str, entity_type: &str) -> (r: Self)
        ensures
            r@ == ErrorModel::UnknownField(field@, entity_type@),
    {
        QueryError::UnknownField { field: owned(field), entity_type: owned(entity_type) }
    }

    /// Create a new type mismatch error.
    pub fn type_mismatch(left_type: &str, right_type: &str) -> (r: Self)
        ensures
            r@ == ErrorModel::TypeMismatch(left_type@, right_type@),
    {
        QueryError::TypeMismatch { left_type: owned(left_type), right_type: owned(right_type) }
    }

    /// Create a new execution error.
    pub fn execution(message: &str) -> (r: Self)
        ensures
            r@ == ErrorModel::Execution(message@),
    {
        QueryError::ExecutionError { message: owned(message) }
    }

    /// Create a new invalid literal error.
    pub fn invalid_literal(literal: &str) -> (r: Self)
        ensures
            r@ == ErrorModel::InvalidLiteral(literal@),
    {
        QueryError::InvalidLiteral { literal: owned(literal) }
    }

    /// Create a new unresolved reference error.
    pub fn unresolved_reference(reference: &str) -> (r: Self)
        ensures
            r@ == ErrorModel::UnresolvedReference(reference@),
    {
        QueryError::UnresolvedReference { reference: owned(reference) }
    }

    /// Create a new unsupported operation error.
    pub fn unsupported_operation(operation: &str) -> (r: Self)
        ensures
            r@ == ErrorModel::UnsupportedOperation(operation@),
    {
        QueryError::UnsupportedOperation { operation: owned(operation) }
    }

    /// Create a new invalid syntax error.
    pub fn invalid_syntax(details: &str) -> (r: Self)
        ensures
            r@ == ErrorModel::InvalidSyntax(details@),
    {
        QueryError::InvalidSyntax { details: owned(details) }
    }

    /// Create a new column not found error.
    pub fn column_not_found(column: &str) -> (r: Self)
        ensures
            r@ == ErrorModel::ColumnNotFound(column@),
    {
        QueryError::ColumnNotFound { column: owned(column) }
    }

    /// The text of the error, as its `Display` writes it.
    pub fn to_message(&self) -> (r: String)
        ensures
            r@ == error_text(self@),
    {
        match self {
            QueryError::SyntaxError { message, position } => {
                let mut s = concat("Syntax error: ", message.as_str());
                s.append(" at position ");
                s.append(usize_to_text(*position).as_str());
                s
            },
            QueryError::UnknownEntityType { entity_type } => concat(
                "Unknown entity type: ",
                entity_type.as_str(),
            ),
            QueryError::UnknownField { field, entity_type } => {
                let mut s = concat("Unknown field '", field.as_str());
                s.append("' on entity type '");
                s.append(entity_type.as_str());
                s.append("'");
                s
            },
            QueryError::TypeMismatch { left_type, right_type } => {
                let mut s = concat("Type mismatch: cannot compare ", left_type.as_str());
                s.append(" with ");
                s.append(right_type.as_str());
                s
            },
            QueryError::InvalidFunction { function, args } => {
                let mut s = concat("Invalid function: ", function.as_str());
                s.append("(");
                s.append(args.as_str());
                s.append(")");
                s
            },
            QueryError::ExecutionError { message } => concat(
                "Execution error: ",
                message.as_str(),
            ),
            QueryError::InvalidLiteral { literal } => concat("Invalid literal: ", literal.as_str()),
            QueryError::UnresolvedReference { reference } => concat(
                "Cannot resolve reference: ",
                reference.as_str(),
            ),
            QueryError::UnsupportedOperation { operation } => concat(
                "Unsupported operation: ",
                operation.as_str(),
            ),
            QueryError::InvalidSyntax { details } => concat(
                "Invalid SQL syntax: ",
                details.as_str(),
            ),
            QueryError::ColumnNotFound { column } => {
                let mut s = concat("Column '", column.as_str());
                s.append("' not found in result set");
                s
            },
        }
    }
}

} // verus!
