//! The syntax tree of the schema language.
//!
//! Every node owns its children. Each type comes with a mathematical
//! counterpart, its model, in which a string is a sequence of characters
//! and a vector a sequence; the contracts of the grammar and of the
//! printer speak of the models. A type and its extension share a model:
//! an extension has no description.

use vstd::prelude::*;
use crate::position::Pos;
use crate::parser::same_text;
use crate::common::{
    Directive, Type, Value, DirectiveModel, TypeModel, ValueModel, directives_view,
};
use crate::query::ast::text_view;

verus! {

/// The texts of a sequence of strings.
pub open spec fn names_view(v: Seq<String>) -> Seq<Seq<char>> {
    v.map_values(|s: String| s@)
}

/// The model of an optional value.
pub open spec fn value_view(v: Option<Value>) -> Option<ValueModel> {
    match v {
        Some(v) => Some(v@),
        None => None,
    }
}

/// A document of the schema language: one definition or more.
#[derive(Debug, Clone, PartialEq)]
pub struct Document {
    pub definitions: Vec<Definition>,
}

#[derive(Debug, Clone, PartialEq)]
pub enum Definition {
    SchemaDefinition(SchemaDefinition),
    TypeDefinition(TypeDefinition),
    TypeExtension(TypeExtension),
    DirectiveDefinition(DirectiveDefinition),
}

#[derive(Debug, Clone, PartialEq)]
pub enum TypeDefinition {
    Scalar(ScalarType),
    Object(ObjectType),
    Interface(InterfaceType),
    Union(UnionType),
    Enum(EnumType),
    InputObject(InputObjectType),
}

#[derive(Debug, Clone, PartialEq)]
pub enum TypeExtension {
    Scalar(ScalarTypeExtension),
    Object(ObjectTypeExtension),
    Interface(InterfaceTypeExtension),
    Union(UnionTypeExtension),
    Enum(EnumTypeExtension),
    InputObject(InputObjectTypeExtension),
}

/// The definition of the schema: the types of its operations.
#[derive(Debug, Clone, PartialEq)]
pub struct SchemaDefinition {
    pub position: Pos,
    pub directives: Vec<Directive>,
    pub query: Option<String>,
    pub mutation: Option<String>,
    pub subscription: Option<String>,
}

/// A scalar type.
#[derive(Debug, Clone, PartialEq)]
pub struct ScalarType {
    pub position: Pos,
    pub description: Option<String>,
    pub name: String,
    pub directives: Vec<Directive>,
}

/// The extension of a scalar type.
#[derive(Debug, Clone, PartialEq)]
pub struct ScalarTypeExtension {
    pub position: Pos,
    pub name: String,
    pub directives: Vec<Directive>,
}

/// An object type.
#[derive(Debug, Clone, PartialEq)]
pub struct ObjectType {
    pub position: Pos,
    pub description: Option<String>,
    pub name: String,
    pub implements_interfaces: Vec<String>,
    pub directives: Vec<Directive>,
    pub fields: Vec<Field>,
}

/// The extension of an object type.
#[derive(Debug, Clone, PartialEq)]
pub struct ObjectTypeExtension {
    pub position: Pos,
    pub name: String,
    pub implements_interfaces: Vec<String>,
    pub directives: Vec<Directive>,
    pub fields: Vec<Field>,
}

/// A field of an object type or of an interface.
#[derive(Debug, Clone, PartialEq)]
pub struct Field {
    pub position: Pos,
    pub description: Option<String>,
    pub name: String,
    pub arguments: Vec<InputValue>,
    pub field_type: Type,
    pub directives: Vec<Directive>,
}

/// An argument of a field or of a directive, or a field of an input object.
#[derive(Debug, Clone, PartialEq)]
pub struct InputValue {
    pub position: Pos,
    pub description: Option<String>,
    pub name: String,
    pub value_type: Type,
    pub default_value: Option<Value>,
    pub directives: Vec<Directive>,
}

/// An interface.
#[derive(Debug, Clone, PartialEq)]
pub struct InterfaceType {
    pub position: Pos,
    pub description: Option<String>,
    pub name: String,
    pub implements_interfaces: Vec<String>,
    pub directives: Vec<Directive>,
    pub fields: Vec<Field>,
}

/// The extension of an interface.
#[derive(Debug, Clone, PartialEq)]
pub struct InterfaceTypeExtension {
    pub position: Pos,
    pub name: String,
    pub implements_interfaces: Vec<String>,
    pub directives: Vec<Directive>,
    pub fields: Vec<Field>,
}

/// A union of types.
#[derive(Debug, Clone, PartialEq)]
pub struct UnionType {
    pub position: Pos,
    pub description: Option<String>,
    pub name: String,
    pub directives: Vec<Directive>,
    pub types: Vec<String>,
}

/// The extension of a union.
#[derive(Debug, Clone, PartialEq)]
pub struct UnionTypeExtension {
    pub position: Pos,
    pub name: String,
    pub directives: Vec<Directive>,
    pub types: Vec<String>,
}

/// An enum type.
#[derive(Debug, Clone, PartialEq)]
pub struct EnumType {
    pub position: Pos,
    pub description: Option<String>,
    pub name: String,
    pub directives: Vec<Directive>,
    pub values: Vec<EnumValue>,
}

/// A value of an enum type.
#[derive(Debug, Clone, PartialEq)]
pub struct EnumValue {
    pub position: Pos,
    pub description: Option<String>,
    pub name: String,
    pub directives: Vec<Directive>,
}

/// The extension of an enum type.
#[derive(Debug, Clone, PartialEq)]
pub struct EnumTypeExtension {
    pub position: Pos,
    pub name: String,
    pub directives: Vec<Directive>,
    pub values: Vec<EnumValue>,
}

/// An input object type.
#[derive(Debug, Clone, PartialEq)]
pub struct InputObjectType {
    pub position: Pos,
    pub description: Option<String>,
    pub name: String,
    pub directives: Vec<Directive>,
    pub fields: Vec<InputValue>,
}

/// The extension of an input object type.
#[derive(Debug, Clone, PartialEq)]
pub struct InputObjectTypeExtension {
    pub position: Pos,
    pub name: String,
    pub directives: Vec<Directive>,
    pub fields: Vec<InputValue>,
}

/// The definition of a directive.
#[derive(Debug, Clone, PartialEq)]
pub struct DirectiveDefinition {
    pub position: Pos,
    pub description: Option<String>,
    pub name: String,
    pub arguments: Vec<InputValue>,
    pub repeatable: bool,
    pub locations: Vec<DirectiveLocation>,
}

/// The model of [`SchemaDefinition`].
pub struct SchemaDefinitionModel {
    pub position: Pos,
    pub directives: Seq<DirectiveModel>,
    pub query: Option<Seq<char>>,
    pub mutation: Option<Seq<char>>,
    pub subscription: Option<Seq<char>>,
}

/// The model of [`ScalarType`] and of [`ScalarTypeExtension`].
pub struct ScalarModel {
    pub position: Pos,
    pub description: Option<Seq<char>>,
    pub name: Seq<char>,
    pub directives: Seq<DirectiveModel>,
}

/// The model of [`ObjectType`] and of [`ObjectTypeExtension`] and of [`InterfaceType`] and of [`InterfaceTypeExtension`].
pub struct ObjectModel {
    pub position: Pos,
    pub description: Option<Seq<char>>,
    pub name: Seq<char>,
    pub implements_interfaces: Seq<Seq<char>>,
    pub directives: Seq<DirectiveModel>,
    pub fields: Seq<FieldModel>,
}

/// The model of [`Field`].
pub struct FieldModel {
    pub position: Pos,
    pub description: Option<Seq<char>>,
    pub name: Seq<char>,
    pub arguments: Seq<InputValueModel>,
    pub field_type: TypeModel,
    pub directives: Seq<DirectiveModel>,
}

/// The model of [`InputValue`].
pub struct InputValueModel {
    pub position: Pos,
    pub description: Option<Seq<char>>,
    pub name: Seq<char>,
    pub value_type: TypeModel,
    pub default_value: Option<ValueModel>,
    pub directives: Seq<DirectiveModel>,
}

/// The model of [`UnionType`] and of [`UnionTypeExtension`].
pub struct UnionModel {
    pub position: Pos,
    pub description: Option<Seq<char>>,
    pub name: Seq<char>,
    pub directives: Seq<DirectiveModel>,
    pub types: Seq<Seq<char>>,
}

/// The model of [`EnumType`] and of [`EnumTypeExtension`].
pub struct EnumModel {
    pub position: Pos,
    pub description: Option<Seq<char>>,
    pub name: Seq<char>,
    pub directives: Seq<DirectiveModel>,
    pub values: Seq<EnumValueModel>,
}

/// The model of [`EnumValue`].
pub struct EnumValueModel {
    pub position: Pos,
    pub description: Option<Seq<char>>,
    pub name: Seq<char>,
    pub directives: Seq<DirectiveModel>,
}

/// The model of [`InputObjectType`] and of [`InputObjectTypeExtension`].
pub struct InputObjectModel {
    pub position: Pos,
    pub description: Option<Seq<char>>,
    pub name: Seq<char>,
    pub directives: Seq<DirectiveModel>,
    pub fields: Seq<InputValueModel>,
}

/// The model of [`DirectiveDefinition`].
pub struct DirectiveDefinitionModel {
    pub position: Pos,
    pub description: Option<Seq<char>>,
    pub name: Seq<char>,
    pub arguments: Seq<InputValueModel>,
    pub repeatable: bool,
    pub locations: Seq<DirectiveLocation>,
}

/// The model of [`TypeDefinition`] and of [`TypeExtension`].
pub enum TypeModelOf {
    Scalar(ScalarModel),
    Object(ObjectModel),
    Interface(ObjectModel),
    Union(UnionModel),
    Enum(EnumModel),
    InputObject(InputObjectModel),
}

/// The model of [`Definition`].
pub enum DefinitionModel {
    SchemaDefinition(SchemaDefinitionModel),
    TypeDefinition(TypeModelOf),
    TypeExtension(TypeModelOf),
    DirectiveDefinition(DirectiveDefinitionModel),
}

/// The model of [`Document`].
pub struct DocumentModel {
    pub definitions: Seq<DefinitionModel>,
}

/// The models of a sequence of fields.
pub open spec fn fields_view(v: Seq<Field>) -> Seq<FieldModel> {
    v.map_values(|f: Field| f@)
}

/// The models of a sequence of input values.
pub open spec fn inputs_view(v: Seq<InputValue>) -> Seq<InputValueModel> {
    v.map_values(|f: InputValue| f@)
}

/// The models of a sequence of enum values.
pub open spec fn enum_values_view(v: Seq<EnumValue>) -> Seq<EnumValueModel> {
    v.map_values(|f: EnumValue| f@)
}

/// The models of a sequence of definitions.
pub open spec fn definitions_view(v: Seq<Definition>) -> Seq<DefinitionModel> {
    v.map_values(|d: Definition| d@)
}

impl View for SchemaDefinition {
    type V = SchemaDefinitionModel;

    open spec fn view(&self) -> SchemaDefinitionModel {
        SchemaDefinitionModel {
            position: self.position,
            directives: directives_view(self.directives@),
            query: text_view(self.query),
            mutation: text_view(self.mutation),
            subscription: text_view(self.subscription),
        }
    }
}

impl View for ScalarType {
    type V = ScalarModel;

    open spec fn view(&self) -> ScalarModel {
        ScalarModel {
            position: self.position,
            description: text_view(self.description),
            name: self.name@,
            directives: directives_view(self.directives@),
        }
    }
}

impl ScalarType {
    /// A node of this kind with the given name and nothing else, at no
    /// position.
    pub fn new(name: String) -> (node: Self)
        ensures
            node@ == (ScalarModel {
                position: Pos { line: 0, column: 0 },
                description: None,
                name: name@,
                directives: Seq::empty(),
            }),
    {
        let node = ScalarType {
            position: Pos { line: 0, column: 0 },
            description: None,
            name,
            directives: Vec::new(),
        };
        assert(directives_view(node.directives@) =~= Seq::<DirectiveModel>::empty());
        node
    }
}

impl View for ScalarTypeExtension {
    type V = ScalarModel;

    open spec fn view(&self) -> ScalarModel {
        ScalarModel {
            position: self.position,
            description: None,
            name: self.name@,
            directives: directives_view(self.directives@),
        }
    }
}

impl ScalarTypeExtension {
    /// A node of this kind with the given name and nothing else, at no
    /// position.
    pub fn new(name: String) -> (node: Self)
        ensures
            node@ == (ScalarModel {
                position: Pos { line: 0, column: 0 },
                description: None,
                name: name@,
                directives: Seq::empty(),
            }),
    {
        let node = ScalarTypeExtension {
            position: Pos { line: 0, column: 0 },
            name,
            directives: Vec::new(),
        };
        assert(directives_view(node.directives@) =~= Seq::<DirectiveModel>::empty());
        node
    }
}

impl View for ObjectType {
    type V = ObjectModel;

    open spec fn view(&self) -> ObjectModel {
        ObjectModel {
            position: self.position,
            description: text_view(self.description),
            name: self.name@,
            implements_interfaces: names_view(self.implements_interfaces@),
            directives: directives_view(self.directives@),
            fields: fields_view(self.fields@),
        }
    }
}

impl ObjectType {
    /// A node of this kind with the given name and nothing else, at no
    /// position.
    pub fn new(name: String) -> (node: Self)
        ensures
            node@ == (ObjectModel {
                position: Pos { line: 0, column: 0 },
                description: None,
                name: name@,
                implements_interfaces: Seq::empty(),
                directives: Seq::empty(),
                fields: Seq::empty(),
            }),
    {
        let node = ObjectType {
            position: Pos { line: 0, column: 0 },
            description: None,
            name,
            implements_interfaces: Vec::new(),
            directives: Vec::new(),
            fields: Vec::new(),
        };
        assert(names_view(node.implements_interfaces@) =~= Seq::<Seq<char>>::empty());
        assert(directives_view(node.directives@) =~= Seq::<DirectiveModel>::empty());
        assert(fields_view(node.fields@) =~= Seq::<FieldModel>::empty());
        node
    }
}

impl View for ObjectTypeExtension {
    type V = ObjectModel;

    open spec fn view(&self) -> ObjectModel {
        ObjectModel {
            position: self.position,
            description: None,
            name: self.name@,
            implements_interfaces: names_view(self.implements_interfaces@),
            directives: directives_view(self.directives@),
            fields: fields_view(self.fields@),
        }
    }
}

impl ObjectTypeExtension {
    /// A node of this kind with the given name and nothing else, at no
    /// position.
    pub fn new(name: String) -> (node: Self)
        ensures
            node@ == (ObjectModel {
                position: Pos { line: 0, column: 0 },
                description: None,
                name: name@,
                implements_interfaces: Seq::empty(),
                directives: Seq::empty(),
                fields: Seq::empty(),
            }),
    {
        let node = ObjectTypeExtension {
            position: Pos { line: 0, column: 0 },
            name,
            implements_interfaces: Vec::new(),
            directives: Vec::new(),
            fields: Vec::new(),
        };
        assert(names_view(node.implements_interfaces@) =~= Seq::<Seq<char>>::empty());
        assert(directives_view(node.directives@) =~= Seq::<DirectiveModel>::empty());
        assert(fields_view(node.fields@) =~= Seq::<FieldModel>::empty());
        node
    }
}

impl View for Field {
    type V = FieldModel;

    open spec fn view(&self) -> FieldModel {
        FieldModel {
            position: self.position,
            description: text_view(self.description),
            name: self.name@,
            arguments: inputs_view(self.arguments@),
            field_type: self.field_type@,
            directives: directives_view(self.directives@),
        }
    }
}

impl View for InputValue {
    type V = InputValueModel;

    open spec fn view(&self) -> InputValueModel {
        InputValueModel {
            position: self.position,
            description: text_view(self.description),
            name: self.name@,
            value_type: self.value_type@,
            default_value: value_view(self.default_value),
            directives: directives_view(self.directives@),
        }
    }
}

impl View for InterfaceType {
    type V = ObjectModel;

    open spec fn view(&self) -> ObjectModel {
        ObjectModel {
            position: self.position,
            description: text_view(self.description),
            name: self.name@,
            implements_interfaces: names_view(self.implements_interfaces@),
            directives: directives_view(self.directives@),
            fields: fields_view(self.fields@),
        }
    }
}

impl InterfaceType {
    /// A node of this kind with the given name and nothing else, at no
    /// position.
    pub fn new(name: String) -> (node: Self)
        ensures
            node@ == (ObjectModel {
                position: Pos { line: 0, column: 0 },
                description: None,
                name: name@,
                implements_interfaces: Seq::empty(),
                directives: Seq::empty(),
                fields: Seq::empty(),
            }),
    {
        let node = InterfaceType {
            position: Pos { line: 0, column: 0 },
            description: None,
            name,
            implements_interfaces: Vec::new(),
            directives: Vec::new(),
            fields: Vec::new(),
        };
        assert(names_view(node.implements_interfaces@) =~= Seq::<Seq<char>>::empty());
        assert(directives_view(node.directives@) =~= Seq::<DirectiveModel>::empty());
        assert(fields_view(node.fields@) =~= Seq::<FieldModel>::empty());
        node
    }
}

impl View for InterfaceTypeExtension {
    type V = ObjectModel;

    open spec fn view(&self) -> ObjectModel {
        ObjectModel {
            position: self.position,
            description: None,
            name: self.name@,
            implements_interfaces: names_view(self.implements_interfaces@),
            directives: directives_view(self.directives@),
            fields: fields_view(self.fields@),
        }
    }
}

impl InterfaceTypeExtension {
    /// A node of this kind with the given name and nothing else, at no
    /// position.
    pub fn new(name: String) -> (node: Self)
        ensures
            node@ == (ObjectModel {
                position: Pos { line: 0, column: 0 },
                description: None,
                name: name@,
                implements_interfaces: Seq::empty(),
                directives: Seq::empty(),
                fields: Seq::empty(),
            }),
    {
        let node = InterfaceTypeExtension {
            position: Pos { line: 0, column: 0 },
            name,
            implements_interfaces: Vec::new(),
            directives: Vec::new(),
            fields: Vec::new(),
        };
        assert(names_view(node.implements_interfaces@) =~= Seq::<Seq<char>>::empty());
        assert(directives_view(node.directives@) =~= Seq::<DirectiveModel>::empty());
        assert(fields_view(node.fields@) =~= Seq::<FieldModel>::empty());
        node
    }
}

impl View for UnionType {
    type V = UnionModel;

    open spec fn view(&self) -> UnionModel {
        UnionModel {
            position: self.position,
            description: text_view(self.description),
            name: self.name@,
            directives: directives_view(self.directives@),
            types: names_view(self.types@),
        }
    }
}

impl UnionType {
    /// A node of this kind with the given name and nothing else, at no
    /// position.
    pub fn new(name: String) -> (node: Self)
        ensures
            node@ == (UnionModel {
                position: Pos { line: 0, column: 0 },
                description: None,
                name: name@,
                directives: Seq::empty(),
                types: Seq::empty(),
            }),
    {
        let node = UnionType {
            position: Pos { line: 0, column: 0 },
            description: None,
            name,
            directives: Vec::new(),
            types: Vec::new(),
        };
        assert(directives_view(node.directives@) =~= Seq::<DirectiveModel>::empty());
        assert(names_view(node.types@) =~= Seq::<Seq<char>>::empty());
        node
    }
}

impl View for UnionTypeExtension {
    type V = UnionModel;

    open spec fn view(&self) -> UnionModel {
        UnionModel {
            position: self.position,
            description: None,
            name: self.name@,
            directives: directives_view(self.directives@),
            types: names_view(self.types@),
        }
    }
}

impl UnionTypeExtension {
    /// A node of this kind with the given name and nothing else, at no
    /// position.
    pub fn new(name: String) -> (node: Self)
        ensures
            node@ == (UnionModel {
                position: Pos { line: 0, column: 0 },
                description: None,
                name: name@,
                directives: Seq::empty(),
                types: Seq::empty(),
            }),
    {
        let node = UnionTypeExtension {
            position: Pos { line: 0, column: 0 },
            name,
            directives: Vec::new(),
            types: Vec::new(),
        };
        assert(directives_view(node.directives@) =~= Seq::<DirectiveModel>::empty());
        assert(names_view(node.types@) =~= Seq::<Seq<char>>::empty());
        node
    }
}

impl View for EnumType {
    type V = EnumModel;

    open spec fn view(&self) -> EnumModel {
        EnumModel {
            position: self.position,
            description: text_view(self.description),
            name: self.name@,
            directives: directives_view(self.directives@),
            values: enum_values_view(self.values@),
        }
    }
}

impl EnumType {
    /// A node of this kind with the given name and nothing else, at no
    /// position.
    pub fn new(name: String) -> (node: Self)
        ensures
            node@ == (EnumModel {
                position: Pos { line: 0, column: 0 },
                description: None,
                name: name@,
                directives: Seq::empty(),
                values: Seq::empty(),
            }),
    {
        let node = EnumType {
            position: Pos { line: 0, column: 0 },
            description: None,
            name,
            directives: Vec::new(),
            values: Vec::new(),
        };
        assert(directives_view(node.directives@) =~= Seq::<DirectiveModel>::empty());
        assert(enum_values_view(node.values@) =~= Seq::<EnumValueModel>::empty());
        node
    }
}

impl View for EnumValue {
    type V = EnumValueModel;

    open spec fn view(&self) -> EnumValueModel {
        EnumValueModel {
            position: self.position,
            description: text_view(self.description),
            name: self.name@,
            directives: directives_view(self.directives@),
        }
    }
}

impl EnumValue {
    /// A node of this kind with the given name and nothing else, at no
    /// position.
    pub fn new(name: String) -> (node: Self)
        ensures
            node@ == (EnumValueModel {
                position: Pos { line: 0, column: 0 },
                description: None,
                name: name@,
                directives: Seq::empty(),
            }),
    {
        let node = EnumValue {
            position: Pos { line: 0, column: 0 },
            description: None,
            name,
            directives: Vec::new(),
        };
        assert(directives_view(node.directives@) =~= Seq::<DirectiveModel>::empty());
        node
    }
}

impl View for EnumTypeExtension {
    type V = EnumModel;

    open spec fn view(&self) -> EnumModel {
        EnumModel {
            position: self.position,
            description: None,
            name: self.name@,
            directives: directives_view(self.directives@),
            values: enum_values_view(self.values@),
        }
    }
}

impl EnumTypeExtension {
    /// A node of this kind with the given name and nothing else, at no
    /// position.
    pub fn new(name: String) -> (node: Self)
        ensures
            node@ == (EnumModel {
                position: Pos { line: 0, column: 0 },
                description: None,
                name: name@,
                directives: Seq::empty(),
                values: Seq::empty(),
            }),
    {
        let node = EnumTypeExtension {
            position: Pos { line: 0, column: 0 },
            name,
            directives: Vec::new(),
            values: Vec::new(),
        };
        assert(directives_view(node.directives@) =~= Seq::<DirectiveModel>::empty());
        assert(enum_values_view(node.values@) =~= Seq::<EnumValueModel>::empty());
        node
    }
}

impl View for InputObjectType {
    type V = InputObjectModel;

    open spec fn view(&self) -> InputObjectModel {
        InputObjectModel {
            position: self.position,
            description: text_view(self.description),
            name: self.name@,
            directives: directives_view(self.directives@),
            fields: inputs_view(self.fields@),
        }
    }
}

impl InputObjectType {
    /// A node of this kind with the given name and nothing else, at no
    /// position.
    pub fn new(name: String) -> (node: Self)
        ensures
            node@ == (InputObjectModel {
                position: Pos { line: 0, column: 0 },
                description: None,
                name: name@,
                directives: Seq::empty(),
                fields: Seq::empty(),
            }),
    {
        let node = InputObjectType {
            position: Pos { line: 0, column: 0 },
            description: None,
            name,
            directives: Vec::new(),
            fields: Vec::new(),
        };
        assert(directives_view(node.directives@) =~= Seq::<DirectiveModel>::empty());
        assert(inputs_view(node.fields@) =~= Seq::<InputValueModel>::empty());
        node
    }
}

impl View for InputObjectTypeExtension {
    type V = InputObjectModel;

    open spec fn view(&self) -> InputObjectModel {
        InputObjectModel {
            position: self.position,
            description: None,
            name: self.name@,
            directives: directives_view(self.directives@),
            fields: inputs_view(self.fields@),
        }
    }
}

impl InputObjectTypeExtension {
    /// A node of this kind with the given name and nothing else, at no
    /// position.
    pub fn new(name: String) -> (node: Self)
        ensures
            node@ == (InputObjectModel {
                position: Pos { line: 0, column: 0 },
                description: None,
                name: name@,
                directives: Seq::empty(),
                fields: Seq::empty(),
            }),
    {
        let node = InputObjectTypeExtension {
            position: Pos { line: 0, column: 0 },
            name,
            directives: Vec::new(),
            fields: Vec::new(),
        };
        assert(directives_view(node.directives@) =~= Seq::<DirectiveModel>::empty());
        assert(inputs_view(node.fields@) =~= Seq::<InputValueModel>::empty());
        node
    }
}

impl View for DirectiveDefinition {
    type V = DirectiveDefinitionModel;

    open spec fn view(&self) -> DirectiveDefinitionModel {
        DirectiveDefinitionModel {
            position: self.position,
            description: text_view(self.description),
            name: self.name@,
            arguments: inputs_view(self.arguments@),
            repeatable: self.repeatable,
            locations: self.locations@,
        }
    }
}

impl DirectiveDefinition {
    /// A node of this kind with the given name and nothing else, at no
    /// position.
    pub fn new(name: String) -> (node: Self)
        ensures
            node@ == (DirectiveDefinitionModel {
                position: Pos { line: 0, column: 0 },
                description: None,
                name: name@,
                arguments: Seq::empty(),
                repeatable: false,
                locations: Seq::empty(),
            }),
    {
        let node = DirectiveDefinition {
            position: Pos { line: 0, column: 0 },
            description: None,
            name,
            arguments: Vec::new(),
            repeatable: false,
            locations: Vec::new(),
        };
        assert(inputs_view(node.arguments@) =~= Seq::<InputValueModel>::empty());
        assert(node.locations@ =~= Seq::<DirectiveLocation>::empty());
        node
    }
}

impl View for TypeDefinition {
    type V = TypeModelOf;

    open spec fn view(&self) -> TypeModelOf {
        match self {
            TypeDefinition::Scalar(t) => TypeModelOf::Scalar(t@),
            TypeDefinition::Object(t) => TypeModelOf::Object(t@),
            TypeDefinition::Interface(t) => TypeModelOf::Interface(t@),
            TypeDefinition::Union(t) => TypeModelOf::Union(t@),
            TypeDefinition::Enum(t) => TypeModelOf::Enum(t@),
            TypeDefinition::InputObject(t) => TypeModelOf::InputObject(t@),
        }
    }
}

impl View for TypeExtension {
    type V = TypeModelOf;

    open spec fn view(&self) -> TypeModelOf {
        match self {
            TypeExtension::Scalar(t) => TypeModelOf::Scalar(t@),
            TypeExtension::Object(t) => TypeModelOf::Object(t@),
            TypeExtension::Interface(t) => TypeModelOf::Interface(t@),
            TypeExtension::Union(t) => TypeModelOf::Union(t@),
            TypeExtension::Enum(t) => TypeModelOf::Enum(t@),
            TypeExtension::InputObject(t) => TypeModelOf::InputObject(t@),
        }
    }
}

impl View for Definition {
    type V = DefinitionModel;

    open spec fn view(&self) -> DefinitionModel {
        match self {
            Definition::SchemaDefinition(d) => DefinitionModel::SchemaDefinition(d@),
            Definition::TypeDefinition(d) => DefinitionModel::TypeDefinition(d@),
            Definition::TypeExtension(d) => DefinitionModel::TypeExtension(d@),
            Definition::DirectiveDefinition(d) => DefinitionModel::DirectiveDefinition(d@),
        }
    }
}

impl View for Document {
    type V = DocumentModel;

    open spec fn view(&self) -> DocumentModel {
        DocumentModel { definitions: definitions_view(self.definitions@) }
    }
}

/// A place where a directive may stand.
#[derive(Debug, Clone, Copy, PartialEq, Eq, Structural, Hash)]
pub enum DirectiveLocation {
    // In a query.
    Query,
    Mutation,
    Subscription,
    Field,
    FragmentDefinition,
    FragmentSpread,
    InlineFragment,
    // In a schema.
    Schema,
    Scalar,
    Object,
    FieldDefinition,
    ArgumentDefinition,
    Interface,
    Union,
    Enum,
    EnumValue,
    InputObject,
    InputFieldDefinition,
    VariableDefinition,
}

/// The error of reading a directive location from a text that names none.
#[derive(Debug, Clone, Copy, PartialEq, Eq)]
pub struct InvalidDirectiveLocation;

impl InvalidDirectiveLocation {
    /// The error as it is shown.
    pub fn to_string(&self) -> (s: String)
        ensures
            s@ == "invalid directive location"@,
    {
        "invalid directive location".to_string()
    }
}

impl DirectiveLocation {
    /// The name of the location as the schema language writes it.
    pub open spec fn name(self) -> Seq<char> {
        match self {
            DirectiveLocation::Query => "QUERY"@,
            DirectiveLocation::Mutation => "MUTATION"@,
            DirectiveLocation::Subscription => "SUBSCRIPTION"@,
            DirectiveLocation::Field => "FIELD"@,
            DirectiveLocation::FragmentDefinition => "FRAGMENT_DEFINITION"@,
            DirectiveLocation::FragmentSpread => "FRAGMENT_SPREAD"@,
            DirectiveLocation::InlineFragment => "INLINE_FRAGMENT"@,
            DirectiveLocation::Schema => "SCHEMA"@,
            DirectiveLocation::Scalar => "SCALAR"@,
            DirectiveLocation::Object => "OBJECT"@,
            DirectiveLocation::FieldDefinition => "FIELD_DEFINITION"@,
            DirectiveLocation::ArgumentDefinition => "ARGUMENT_DEFINITION"@,
            DirectiveLocation::Interface => "INTERFACE"@,
            DirectiveLocation::Union => "UNION"@,
            DirectiveLocation::Enum => "ENUM"@,
            DirectiveLocation::EnumValue => "ENUM_VALUE"@,
            DirectiveLocation::InputObject => "INPUT_OBJECT"@,
            DirectiveLocation::InputFieldDefinition => "INPUT_FIELD_DEFINITION"@,
            DirectiveLocation::VariableDefinition => "VARIABLE_DEFINITION"@,
        }
    }

    /// The location lies in a query, not in a schema.
    pub open spec fn in_query(self) -> bool {
        self == DirectiveLocation::Query || self == DirectiveLocation::Mutation || self
            == DirectiveLocation::Subscription || self == DirectiveLocation::Field || self
            == DirectiveLocation::FragmentDefinition || self == DirectiveLocation::FragmentSpread
            || self == DirectiveLocation::InlineFragment
    }

    /// The name of the location as the schema language writes it.
    pub fn as_str(&self) -> (s: &'static str)
        ensures
            s@ == self.name(),
    {
        match self {
            DirectiveLocation::Query => "QUERY",
            DirectiveLocation::Mutation => "MUTATION",
            DirectiveLocation::Subscription => "SUBSCRIPTION",
            DirectiveLocation::Field => "FIELD",
            DirectiveLocation::FragmentDefinition => "FRAGMENT_DEFINITION",
            DirectiveLocation::FragmentSpread => "FRAGMENT_SPREAD",
            DirectiveLocation::InlineFragment => "INLINE_FRAGMENT",
            DirectiveLocation::Schema => "SCHEMA",
            DirectiveLocation::Scalar => "SCALAR",
            DirectiveLocation::Object => "OBJECT",
            DirectiveLocation::FieldDefinition => "FIELD_DEFINITION",
            DirectiveLocation::ArgumentDefinition => "ARGUMENT_DEFINITION",
            DirectiveLocation::Interface => "INTERFACE",
            DirectiveLocation::Union => "UNION",
            DirectiveLocation::Enum => "ENUM",
            DirectiveLocation::EnumValue => "ENUM_VALUE",
            DirectiveLocation::InputObject => "INPUT_OBJECT",
            DirectiveLocation::InputFieldDefinition => "INPUT_FIELD_DEFINITION",
            DirectiveLocation::VariableDefinition => "VARIABLE_DEFINITION",
        }
    }

    /// Whether the location lies in a query.
    pub fn is_query(&self) -> (b: bool)
        ensures
            b == self.in_query(),
    {
        match self {
            DirectiveLocation::Query
            | DirectiveLocation::Mutation
            | DirectiveLocation::Subscription
            | DirectiveLocation::Field
            | DirectiveLocation::FragmentDefinition
            | DirectiveLocation::FragmentSpread
            | DirectiveLocation::InlineFragment => true,
            _ => false,
        }
    }

    /// Whether the location lies in a schema.
    pub fn is_schema(&self) -> (b: bool)
        ensures
            b == !self.in_query(),
    {
        !self.is_query()
    }

    /// The location of index `k` in the order of their declaration.
    pub open spec fn nth(k: int) -> DirectiveLocation {
        if k == 0 {
            DirectiveLocation::Query
        } else if k == 1 {
            DirectiveLocation::Mutation
        } else if k == 2 {
            DirectiveLocation::Subscription
        } else if k == 3 {
            DirectiveLocation::Field
        } else if k == 4 {
            DirectiveLocation::FragmentDefinition
        } else if k == 5 {
            DirectiveLocation::FragmentSpread
        } else if k == 6 {
            DirectiveLocation::InlineFragment
        } else if k == 7 {
            DirectiveLocation::Schema
        } else if k == 8 {
            DirectiveLocation::Scalar
        } else if k == 9 {
            DirectiveLocation::Object
        } else if k == 10 {
            DirectiveLocation::FieldDefinition
        } else if k == 11 {
            DirectiveLocation::ArgumentDefinition
        } else if k == 12 {
            DirectiveLocation::Interface
        } else if k == 13 {
            DirectiveLocation::Union
        } else if k == 14 {
            DirectiveLocation::Enum
        } else if k == 15 {
            DirectiveLocation::EnumValue
        } else if k == 16 {
            DirectiveLocation::InputObject
        } else if k == 17 {
            DirectiveLocation::InputFieldDefinition
        } else {
            DirectiveLocation::VariableDefinition
        }
    }

    /// The location that `s` names: the first in the order of their
    /// declaration whose name is `s`.
    pub open spec fn named(s: Seq<char>, k: int) -> Option<DirectiveLocation>
        decreases 19 - k,
    {
        if k < 0 || k >= 19 {
            None
        } else if DirectiveLocation::nth(k).name() == s {
            Some(DirectiveLocation::nth(k))
        } else {
            DirectiveLocation::named(s, k + 1)
        }
    }

    /// The name of a place is the name of that place alone: read from
    /// its name, a place is the place it was.
    pub proof fn named_by_name(self)
        ensures
            DirectiveLocation::named(self.name(), 0) == Some(self),
    {
        reveal_strlit("QUERY");
        reveal_strlit("MUTATION");
        reveal_strlit("SUBSCRIPTION");
        reveal_strlit("FIELD");
        reveal_strlit("FRAGMENT_DEFINITION");
        reveal_strlit("FRAGMENT_SPREAD");
        reveal_strlit("INLINE_FRAGMENT");
        reveal_strlit("SCHEMA");
        reveal_strlit("SCALAR");
        reveal_strlit("OBJECT");
        reveal_strlit("FIELD_DEFINITION");
        reveal_strlit("ARGUMENT_DEFINITION");
        reveal_strlit("INTERFACE");
        reveal_strlit("UNION");
        reveal_strlit("ENUM");
        reveal_strlit("ENUM_VALUE");
        reveal_strlit("INPUT_OBJECT");
        reveal_strlit("INPUT_FIELD_DEFINITION");
        reveal_strlit("VARIABLE_DEFINITION");
        assert("QUERY"@.len() == 5 && "QUERY"@[0] == 'Q' && "QUERY"@[2] == 'E');
        assert("MUTATION"@.len() == 8 && "MUTATION"@[0] == 'M' && "MUTATION"@[2] == 'T');
        assert("SUBSCRIPTION"@.len() == 12 && "SUBSCRIPTION"@[0] == 'S' && "SUBSCRIPTION"@[2] == 'B');
        assert("FIELD"@.len() == 5 && "FIELD"@[0] == 'F' && "FIELD"@[2] == 'E');
        assert("FRAGMENT_DEFINITION"@.len() == 19 && "FRAGMENT_DEFINITION"@[0] == 'F' && "FRAGMENT_DEFINITION"@[2] == 'A');
        assert("FRAGMENT_SPREAD"@.len() == 15 && "FRAGMENT_SPREAD"@[0] == 'F' && "FRAGMENT_SPREAD"@[2] == 'A');
        assert("INLINE_FRAGMENT"@.len() == 15 && "INLINE_FRAGMENT"@[0] == 'I' && "INLINE_FRAGMENT"@[2] == 'L');
        assert("SCHEMA"@.len() == 6 && "SCHEMA"@[0] == 'S' && "SCHEMA"@[2] == 'H');
        assert("SCALAR"@.len() == 6 && "SCALAR"@[0] == 'S' && "SCALAR"@[2] == 'A');
        assert("OBJECT"@.len() == 6 && "OBJECT"@[0] == 'O' && "OBJECT"@[2] == 'J');
        assert("FIELD_DEFINITION"@.len() == 16 && "FIELD_DEFINITION"@[0] == 'F' && "FIELD_DEFINITION"@[2] == 'E');
        assert("ARGUMENT_DEFINITION"@.len() == 19 && "ARGUMENT_DEFINITION"@[0] == 'A' && "ARGUMENT_DEFINITION"@[2] == 'G');
        assert("INTERFACE"@.len() == 9 && "INTERFACE"@[0] == 'I' && "INTERFACE"@[2] == 'T');
        assert("UNION"@.len() == 5 && "UNION"@[0] == 'U' && "UNION"@[2] == 'I');
        assert("ENUM"@.len() == 4 && "ENUM"@[0] == 'E' && "ENUM"@[2] == 'U');
        assert("ENUM_VALUE"@.len() == 10 && "ENUM_VALUE"@[0] == 'E' && "ENUM_VALUE"@[2] == 'U');
        assert("INPUT_OBJECT"@.len() == 12 && "INPUT_OBJECT"@[0] == 'I' && "INPUT_OBJECT"@[2] == 'P');
        assert("INPUT_FIELD_DEFINITION"@.len() == 22 && "INPUT_FIELD_DEFINITION"@[0] == 'I' && "INPUT_FIELD_DEFINITION"@[2] == 'P');
        assert("VARIABLE_DEFINITION"@.len() == 19 && "VARIABLE_DEFINITION"@[0] == 'V' && "VARIABLE_DEFINITION"@[2] == 'R');
        reveal_with_fuel(DirectiveLocation::named, 20);
    }

    fn nth_location(k: usize) -> (l: DirectiveLocation)
        requires
            k < 19,
        ensures
            l == DirectiveLocation::nth(k as int),
    {
        if k == 0 {
            DirectiveLocation::Query
        } else if k == 1 {
            DirectiveLocation::Mutation
        } else if k == 2 {
            DirectiveLocation::Subscription
        } else if k == 3 {
            DirectiveLocation::Field
        } else if k == 4 {
            DirectiveLocation::FragmentDefinition
        } else if k == 5 {
            DirectiveLocation::FragmentSpread
        } else if k == 6 {
            DirectiveLocation::InlineFragment
        } else if k == 7 {
            DirectiveLocation::Schema
        } else if k == 8 {
            DirectiveLocation::Scalar
        } else if k == 9 {
            DirectiveLocation::Object
        } else if k == 10 {
            DirectiveLocation::FieldDefinition
        } else if k == 11 {
            DirectiveLocation::ArgumentDefinition
        } else if k == 12 {
            DirectiveLocation::Interface
        } else if k == 13 {
            DirectiveLocation::Union
        } else if k == 14 {
            DirectiveLocation::Enum
        } else if k == 15 {
            DirectiveLocation::EnumValue
        } else if k == 16 {
            DirectiveLocation::InputObject
        } else if k == 17 {
            DirectiveLocation::InputFieldDefinition
        } else {
            DirectiveLocation::VariableDefinition
        }
    }

    /// Reads a location from its name.
    pub fn parse(s: &str) -> (r: Result<DirectiveLocation, InvalidDirectiveLocation>)
        ensures
            match DirectiveLocation::named(s@, 0) {
                Some(l) => r == Ok::<DirectiveLocation, InvalidDirectiveLocation>(l),
                None => r is Err,
            },
    {
        let mut k: usize = 0;
        while k < 19
            invariant
                k <= 19,
                DirectiveLocation::named(s@, 0) == DirectiveLocation::named(s@, k as int),
            decreases 19 - k,
        {
            let l = DirectiveLocation::nth_location(k);
            if same_text(l.as_str(), s) {
                return Ok(l);
            }
            k += 1;
        }
        Err(InvalidDirectiveLocation)
    }
}

impl std::str::FromStr for DirectiveLocation {
    type Err = InvalidDirectiveLocation;

    fn from_str(s: &str) -> (r: Result<DirectiveLocation, InvalidDirectiveLocation>)
        ensures
            match DirectiveLocation::named(s@, 0) {
                Some(l) => r == Ok::<DirectiveLocation, InvalidDirectiveLocation>(l),
                None => r is Err,
            },
    {
        DirectiveLocation::parse(s)
    }
}

} // verus!
