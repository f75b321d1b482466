//! The query language: its syntax tree, its grammar and its printer.

pub mod ast;
pub mod error;
pub mod grammar;
pub mod format;
pub mod minify;
pub mod shape;
pub mod reread;
pub mod sound;
pub mod roundtrip;
pub mod guard;
pub mod squeeze;
pub mod transformer;

pub use self::ast::{
    Definition, Document, Field, FragmentDefinition, FragmentSpread, InlineFragment, Mutation,
    OperationDefinition, Query, Selection, SelectionSet, Subscription, TypeCondition,
    VariableDefinition,
};
pub use self::error::ParseError;
pub use self::grammar::{consume_definition, parse_query};
pub use self::minify::{minify_query, MinifyError};
pub use self::transformer::{transform_list, Transformed, TransformedValue};
pub use crate::common::{Directive, Number, Type, Value};
