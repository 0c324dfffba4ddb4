use vstd::prelude::*;

pub mod ast;
pub mod cli;
pub mod decimal;
pub mod display;
pub mod engine;
pub mod error;
pub mod eval;
pub mod firmql;
pub mod float;
pub mod graph;
pub mod laws;
pub mod like;
pub mod operator_laws;
pub mod mcp;
pub mod names;
pub mod order;
pub mod project;
pub mod result;
pub mod select;
pub mod sort;
pub mod sql;
pub mod text;
pub mod value;

pub use firmql::{parse_query, FirmQl};
