//! A lexer, parser and pretty-printer for the GraphQL query language.

pub mod position;
pub mod text;
pub mod number;
pub mod tokenizer;
pub mod unquote;
pub mod format;
pub mod inverse;
pub mod error;
pub mod parser;
pub mod common;
pub mod query;
pub mod schema;
pub mod rescan;

pub use crate::format::Style;
pub use crate::position::Pos;
pub use crate::query::{consume_definition, minify_query, parse_query};
pub use crate::schema::parse_schema;
