//! The schema language: its syntax tree, its grammar and its printer.

pub mod ast;
pub mod error;
pub mod format;
pub mod grammar;

pub use self::ast::{
    Definition, DirectiveDefinition, DirectiveLocation, Document, EnumType, EnumTypeExtension,
    EnumValue, Field, InputObjectType, InputObjectTypeExtension, InputValue, InterfaceType,
    InterfaceTypeExtension, InvalidDirectiveLocation, ObjectType, ObjectTypeExtension, ScalarType,
    ScalarTypeExtension, SchemaDefinition, TypeDefinition, TypeExtension, UnionType,
    UnionTypeExtension,
};
pub use self::error::ParseError;
pub use self::grammar::parse_schema;
pub use crate::common::{Directive, Type, Value};
