//! Positions, ranges and the syntax tree that every analysis reads.
//!
//! A tree is plain data: each node records its grammar symbol, its extent in
//! the source text and its children in source order. The parser that produces
//! it is not part of this crate.

use vstd::prelude::*;
use crate::text::{slice, spec_slice, str_eq};

verus! {

/// A zero-based line and column in a source text.
#[derive(Clone, Copy, Debug, PartialEq, Eq, Hash, PartialOrd, Ord, Structural)]
pub struct Point {
    pub row: u32,
    pub column: u32,
}

impl Point {
    /// Points are ordered by row, then by column.
    pub open spec fn spec_lt(self, other: Point) -> bool {
        self.row < other.row || (self.row == other.row && self.column < other.column)
    }

    pub open spec fn spec_le(self, other: Point) -> bool {
        self.spec_lt(other) || self == other
    }

    pub fn new(row: u32, column: u32) -> (p: Point)
        ensures
            p.row == row,
            p.column == column,
    {
        Point { row, column }
    }

    pub fn lt(&self, other: &Point) -> (b: bool)
        ensures
            b == self.spec_lt(*other),
    {
        self.row < other.row || (self.row == other.row && self.column < other.column)
    }

    pub fn le(&self, other: &Point) -> (b: bool)
        ensures
            b == self.spec_le(*other),
    {
        self.row < other.row || (self.row == other.row && self.column <= other.column)
    }
}

/// The extent of a syntax node: byte offsets into the text and the
/// corresponding points. Both ends are half-open.
#[derive(Clone, Copy, Debug, PartialEq, Eq, Hash, Structural)]
pub struct Range {
    pub start_byte: usize,
    pub end_byte: usize,
    pub start_point: Point,
    pub end_point: Point,
}

impl Range {
    /// `start <= point < end`.
    pub open spec fn spec_contains(self, point: Point) -> bool {
        self.start_point.spec_le(point) && point.spec_lt(self.end_point)
    }

    /// Both point ends of `other` lie within `self`, ends included.
    pub open spec fn spec_encloses(self, other: Range) -> bool {
        self.start_point.spec_le(other.start_point) && other.end_point.spec_le(self.end_point)
    }

    /// The two byte intervals share at least one byte.
    pub open spec fn spec_intersects(self, other: Range) -> bool {
        &&& self.start_byte < self.end_byte
        &&& other.start_byte < other.end_byte
        &&& self.start_byte < other.end_byte
        &&& other.start_byte < self.end_byte
    }

    pub fn contains(&self, point: Point) -> (b: bool)
        ensures
            b == self.spec_contains(point),
    {
        self.start_point.le(&point) && point.lt(&self.end_point)
    }

    pub fn encloses(&self, other: &Range) -> (b: bool)
        ensures
            b == self.spec_encloses(*other),
    {
        self.start_point.le(&other.start_point) && other.end_point.le(&self.end_point)
    }

    pub fn intersects(&self, other: Range) -> (b: bool)
        ensures
            b == self.spec_intersects(other),
    {
        let end = if self.end_byte < other.end_byte { self.end_byte } else { other.end_byte };
        let start = if self.start_byte > other.start_byte {
            self.start_byte
        } else {
            other.start_byte
        };
        end > start
    }

    /// Whether the range covers no bytes. The ends must be in order.
    pub fn is_empty(&self) -> (b: bool)
        requires
            self.start_byte <= self.end_byte,
        ensures
            b == (self.start_byte == self.end_byte),
    {
        self.start_byte == self.end_byte
    }
}

/// The grammar symbols that the analyses distinguish. Every other symbol is
/// `Other`.
#[derive(Clone, Copy, Debug, PartialEq, Eq, Hash, Structural)]
pub enum NodeKind {
    Document,
    Item,
    TypeDefinition,
    TypeExtension,
    DirectiveDefinition,
    ObjectTypeDefinition,
    InterfaceTypeDefinition,
    ScalarTypeDefinition,
    EnumTypeDefinition,
    UnionTypeDefinition,
    InputObjectTypeDefinition,
    ObjectTypeExtension,
    InterfaceTypeExtension,
    ScalarTypeExtension,
    EnumTypeExtension,
    UnionTypeExtension,
    InputObjectTypeExtension,
    Name,
    DirectiveName,
    Description,
    Directives,
    Directive,
    DirectiveLocations,
    DirectiveLocation,
    ImplementsInterfaces,
    Type,
    NamedType,
    ListType,
    NonNullType,
    FieldsDefinition,
    FieldDefinition,
    ArgumentsDefinition,
    InputFieldsDefinition,
    InputValueDefinition,
    EnumValuesDefinition,
    EnumValueDefinition,
    EnumValue,
    UnionMemberTypes,
    DefaultValue,
    Value,
    StringValue,
    IntValue,
    FloatValue,
    BooleanValue,
    NullValue,
    ListValue,
    ObjectValue,
    ObjectField,
    Comment,
    Error,
    ArgumentDefinitionLocation,
    EnumLocation,
    EnumValueLocation,
    FieldDefinitionLocation,
    InputFieldDefinitionLocation,
    InputObjectLocation,
    InterfaceLocation,
    ObjectLocation,
    ScalarLocation,
    SchemaLocation,
    UnionLocation,
    Other,
}

/// The grammar field under which a node hangs below its parent.
#[derive(Clone, Copy, Debug, PartialEq, Eq, Hash, Structural)]
pub enum FieldLabel {
    Unlabelled,
    Location,
    Other,
}

/// The kind that a grammar symbol of the given name stands for.
pub open spec fn kind_named(name: Seq<char>) -> NodeKind {
    if name == "document"@ {
        NodeKind::Document
    } else     if name == "item"@ {
        NodeKind::Item
    } else     if name == "type_definition"@ {
        NodeKind::TypeDefinition
    } else     if name == "type_extension"@ {
        NodeKind::TypeExtension
    } else     if name == "directive_definition"@ {
        NodeKind::DirectiveDefinition
    } else     if name == "object_type_definition"@ {
        NodeKind::ObjectTypeDefinition
    } else     if name == "interface_type_definition"@ {
        NodeKind::InterfaceTypeDefinition
    } else     if name == "scalar_type_definition"@ {
        NodeKind::ScalarTypeDefinition
    } else     if name == "enum_type_definition"@ {
        NodeKind::EnumTypeDefinition
    } else     if name == "union_type_definition"@ {
        NodeKind::UnionTypeDefinition
    } else     if name == "input_object_type_definition"@ {
        NodeKind::InputObjectTypeDefinition
    } else     if name == "object_type_extension"@ {
        NodeKind::ObjectTypeExtension
    } else     if name == "interface_type_extension"@ {
        NodeKind::InterfaceTypeExtension
    } else     if name == "scalar_type_extension"@ {
        NodeKind::ScalarTypeExtension
    } else     if name == "enum_type_extension"@ {
        NodeKind::EnumTypeExtension
    } else     if name == "union_type_extension"@ {
        NodeKind::UnionTypeExtension
    } else     if name == "input_object_type_extension"@ {
        NodeKind::InputObjectTypeExtension
    } else     if name == "name"@ {
        NodeKind::Name
    } else     if name == "directive_name"@ {
        NodeKind::DirectiveName
    } else     if name == "description"@ {
        NodeKind::Description
    } else     if name == "directives"@ {
        NodeKind::Directives
    } else     if name == "directive"@ {
        NodeKind::Directive
    } else     if name == "directive_locations"@ {
        NodeKind::DirectiveLocations
    } else     if name == "directive_location"@ {
        NodeKind::DirectiveLocation
    } else     if name == "implements_interfaces"@ {
        NodeKind::ImplementsInterfaces
    } else     if name == "type"@ {
        NodeKind::Type
    } else     if name == "named_type"@ {
        NodeKind::NamedType
    } else     if name == "list_type"@ {
        NodeKind::ListType
    } else     if name == "non_null_type"@ {
        NodeKind::NonNullType
    } else     if name == "fields_definition"@ {
        NodeKind::FieldsDefinition
    } else     if name == "field_definition"@ {
        NodeKind::FieldDefinition
    } else     if name == "arguments_definition"@ {
        NodeKind::ArgumentsDefinition
    } else     if name == "input_fields_definition"@ {
        NodeKind::InputFieldsDefinition
    } else     if name == "input_value_definition"@ {
        NodeKind::InputValueDefinition
    } else     if name == "enum_values_definition"@ {
        NodeKind::EnumValuesDefinition
    } else     if name == "enum_value_definition"@ {
        NodeKind::EnumValueDefinition
    } else     if name == "enum_value"@ {
        NodeKind::EnumValue
    } else     if name == "union_member_types"@ {
        NodeKind::UnionMemberTypes
    } else     if name == "default_value"@ {
        NodeKind::DefaultValue
    } else     if name == "value"@ {
        NodeKind::Value
    } else     if name == "string_value"@ {
        NodeKind::StringValue
    } else     if name == "int_value"@ {
        NodeKind::IntValue
    } else     if name == "float_value"@ {
        NodeKind::FloatValue
    } else     if name == "boolean_value"@ {
        NodeKind::BooleanValue
    } else     if name == "null_value"@ {
        NodeKind::NullValue
    } else     if name == "list_value"@ {
        NodeKind::ListValue
    } else     if name == "object_value"@ {
        NodeKind::ObjectValue
    } else     if name == "object_field"@ {
        NodeKind::ObjectField
    } else     if name == "comment"@ {
        NodeKind::Comment
    } else     if name == "ERROR"@ {
        NodeKind::Error
    } else     if name == "ARGUMENT_DEFINITION"@ {
        NodeKind::ArgumentDefinitionLocation
    } else     if name == "ENUM"@ {
        NodeKind::EnumLocation
    } else     if name == "ENUM_VALUE"@ {
        NodeKind::EnumValueLocation
    } else     if name == "FIELD_DEFINITION"@ {
        NodeKind::FieldDefinitionLocation
    } else     if name == "INPUT_FIELD_DEFINITION"@ {
        NodeKind::InputFieldDefinitionLocation
    } else     if name == "INPUT_OBJECT"@ {
        NodeKind::InputObjectLocation
    } else     if name == "INTERFACE"@ {
        NodeKind::InterfaceLocation
    } else     if name == "OBJECT"@ {
        NodeKind::ObjectLocation
    } else     if name == "SCALAR"@ {
        NodeKind::ScalarLocation
    } else     if name == "SCHEMA"@ {
        NodeKind::SchemaLocation
    } else     if name == "UNION"@ {
        NodeKind::UnionLocation
    } else {
        NodeKind::Other
    }
}

impl NodeKind {
    /// The name of the grammar symbol; `Other` has none of its own.
    pub open spec fn spec_name(self) -> Seq<char> {
        match self {
            NodeKind::Document => "document"@,
            NodeKind::Item => "item"@,
            NodeKind::TypeDefinition => "type_definition"@,
            NodeKind::TypeExtension => "type_extension"@,
            NodeKind::DirectiveDefinition => "directive_definition"@,
            NodeKind::ObjectTypeDefinition => "object_type_definition"@,
            NodeKind::InterfaceTypeDefinition => "interface_type_definition"@,
            NodeKind::ScalarTypeDefinition => "scalar_type_definition"@,
            NodeKind::EnumTypeDefinition => "enum_type_definition"@,
            NodeKind::UnionTypeDefinition => "union_type_definition"@,
            NodeKind::InputObjectTypeDefinition => "input_object_type_definition"@,
            NodeKind::ObjectTypeExtension => "object_type_extension"@,
            NodeKind::InterfaceTypeExtension => "interface_type_extension"@,
            NodeKind::ScalarTypeExtension => "scalar_type_extension"@,
            NodeKind::EnumTypeExtension => "enum_type_extension"@,
            NodeKind::UnionTypeExtension => "union_type_extension"@,
            NodeKind::InputObjectTypeExtension => "input_object_type_extension"@,
            NodeKind::Name => "name"@,
            NodeKind::DirectiveName => "directive_name"@,
            NodeKind::Description => "description"@,
            NodeKind::Directives => "directives"@,
            NodeKind::Directive => "directive"@,
            NodeKind::DirectiveLocations => "directive_locations"@,
            NodeKind::DirectiveLocation => "directive_location"@,
            NodeKind::ImplementsInterfaces => "implements_interfaces"@,
            NodeKind::Type => "type"@,
            NodeKind::NamedType => "named_type"@,
            NodeKind::ListType => "list_type"@,
            NodeKind::NonNullType => "non_null_type"@,
            NodeKind::FieldsDefinition => "fields_definition"@,
            NodeKind::FieldDefinition => "field_definition"@,
            NodeKind::ArgumentsDefinition => "arguments_definition"@,
            NodeKind::InputFieldsDefinition => "input_fields_definition"@,
            NodeKind::InputValueDefinition => "input_value_definition"@,
            NodeKind::EnumValuesDefinition => "enum_values_definition"@,
            NodeKind::EnumValueDefinition => "enum_value_definition"@,
            NodeKind::EnumValue => "enum_value"@,
            NodeKind::UnionMemberTypes => "union_member_types"@,
            NodeKind::DefaultValue => "default_value"@,
            NodeKind::Value => "value"@,
            NodeKind::StringValue => "string_value"@,
            NodeKind::IntValue => "int_value"@,
            NodeKind::FloatValue => "float_value"@,
            NodeKind::BooleanValue => "boolean_value"@,
            NodeKind::NullValue => "null_value"@,
            NodeKind::ListValue => "list_value"@,
            NodeKind::ObjectValue => "object_value"@,
            NodeKind::ObjectField => "object_field"@,
            NodeKind::Comment => "comment"@,
            NodeKind::Error => "ERROR"@,
            NodeKind::ArgumentDefinitionLocation => "ARGUMENT_DEFINITION"@,
            NodeKind::EnumLocation => "ENUM"@,
            NodeKind::EnumValueLocation => "ENUM_VALUE"@,
            NodeKind::FieldDefinitionLocation => "FIELD_DEFINITION"@,
            NodeKind::InputFieldDefinitionLocation => "INPUT_FIELD_DEFINITION"@,
            NodeKind::InputObjectLocation => "INPUT_OBJECT"@,
            NodeKind::InterfaceLocation => "INTERFACE"@,
            NodeKind::ObjectLocation => "OBJECT"@,
            NodeKind::ScalarLocation => "SCALAR"@,
            NodeKind::SchemaLocation => "SCHEMA"@,
            NodeKind::UnionLocation => "UNION"@,
            NodeKind::Other => "other"@,
        }
    }

    pub fn name(self) -> (name: &'static str)
        ensures
            name@ == self.spec_name(),
    {
        match self {
            NodeKind::Document => "document",
            NodeKind::Item => "item",
            NodeKind::TypeDefinition => "type_definition",
            NodeKind::TypeExtension => "type_extension",
            NodeKind::DirectiveDefinition => "directive_definition",
            NodeKind::ObjectTypeDefinition => "object_type_definition",
            NodeKind::InterfaceTypeDefinition => "interface_type_definition",
            NodeKind::ScalarTypeDefinition => "scalar_type_definition",
            NodeKind::EnumTypeDefinition => "enum_type_definition",
            NodeKind::UnionTypeDefinition => "union_type_definition",
            NodeKind::InputObjectTypeDefinition => "input_object_type_definition",
            NodeKind::ObjectTypeExtension => "object_type_extension",
            NodeKind::InterfaceTypeExtension => "interface_type_extension",
            NodeKind::ScalarTypeExtension => "scalar_type_extension",
            NodeKind::EnumTypeExtension => "enum_type_extension",
            NodeKind::UnionTypeExtension => "union_type_extension",
            NodeKind::InputObjectTypeExtension => "input_object_type_extension",
            NodeKind::Name => "name",
            NodeKind::DirectiveName => "directive_name",
            NodeKind::Description => "description",
            NodeKind::Directives => "directives",
            NodeKind::Directive => "directive",
            NodeKind::DirectiveLocations => "directive_locations",
            NodeKind::DirectiveLocation => "directive_location",
            NodeKind::ImplementsInterfaces => "implements_interfaces",
            NodeKind::Type => "type",
            NodeKind::NamedType => "named_type",
            NodeKind::ListType => "list_type",
            NodeKind::NonNullType => "non_null_type",
            NodeKind::FieldsDefinition => "fields_definition",
            NodeKind::FieldDefinition => "field_definition",
            NodeKind::ArgumentsDefinition => "arguments_definition",
            NodeKind::InputFieldsDefinition => "input_fields_definition",
            NodeKind::InputValueDefinition => "input_value_definition",
            NodeKind::EnumValuesDefinition => "enum_values_definition",
            NodeKind::EnumValueDefinition => "enum_value_definition",
            NodeKind::EnumValue => "enum_value",
            NodeKind::UnionMemberTypes => "union_member_types",
            NodeKind::DefaultValue => "default_value",
            NodeKind::Value => "value",
            NodeKind::StringValue => "string_value",
            NodeKind::IntValue => "int_value",
            NodeKind::FloatValue => "float_value",
            NodeKind::BooleanValue => "boolean_value",
            NodeKind::NullValue => "null_value",
            NodeKind::ListValue => "list_value",
            NodeKind::ObjectValue => "object_value",
            NodeKind::ObjectField => "object_field",
            NodeKind::Comment => "comment",
            NodeKind::Error => "ERROR",
            NodeKind::ArgumentDefinitionLocation => "ARGUMENT_DEFINITION",
            NodeKind::EnumLocation => "ENUM",
            NodeKind::EnumValueLocation => "ENUM_VALUE",
            NodeKind::FieldDefinitionLocation => "FIELD_DEFINITION",
            NodeKind::InputFieldDefinitionLocation => "INPUT_FIELD_DEFINITION",
            NodeKind::InputObjectLocation => "INPUT_OBJECT",
            NodeKind::InterfaceLocation => "INTERFACE",
            NodeKind::ObjectLocation => "OBJECT",
            NodeKind::ScalarLocation => "SCALAR",
            NodeKind::SchemaLocation => "SCHEMA",
            NodeKind::UnionLocation => "UNION",
            NodeKind::Other => "other",
        }
    }

    /// The kind that a grammar symbol of the given name stands for.
    pub fn from_name(name: &str) -> (kind: NodeKind)
        ensures
            kind == kind_named(name@),
    {
        if str_eq(name, "document") {
            return NodeKind::Document;
        }
        if str_eq(name, "item") {
            return NodeKind::Item;
        }
        if str_eq(name, "type_definition") {
            return NodeKind::TypeDefinition;
        }
        if str_eq(name, "type_extension") {
            return NodeKind::TypeExtension;
        }
        if str_eq(name, "directive_definition") {
            return NodeKind::DirectiveDefinition;
        }
        if str_eq(name, "object_type_definition") {
            return NodeKind::ObjectTypeDefinition;
        }
        if str_eq(name, "interface_type_definition") {
            return NodeKind::InterfaceTypeDefinition;
        }
        if str_eq(name, "scalar_type_definition") {
            return NodeKind::ScalarTypeDefinition;
        }
        if str_eq(name, "enum_type_definition") {
            return NodeKind::EnumTypeDefinition;
        }
        if str_eq(name, "union_type_definition") {
            return NodeKind::UnionTypeDefinition;
        }
        if str_eq(name, "input_object_type_definition") {
            return NodeKind::InputObjectTypeDefinition;
        }
        if str_eq(name, "object_type_extension") {
            return NodeKind::ObjectTypeExtension;
        }
        if str_eq(name, "interface_type_extension") {
            return NodeKind::InterfaceTypeExtension;
        }
        if str_eq(name, "scalar_type_extension") {
            return NodeKind::ScalarTypeExtension;
        }
        if str_eq(name, "enum_type_extension") {
            return NodeKind::EnumTypeExtension;
        }
        if str_eq(name, "union_type_extension") {
            return NodeKind::UnionTypeExtension;
        }
        if str_eq(name, "input_object_type_extension") {
            return NodeKind::InputObjectTypeExtension;
        }
        if str_eq(name, "name") {
            return NodeKind::Name;
        }
        if str_eq(name, "directive_name") {
            return NodeKind::DirectiveName;
        }
        if str_eq(name, "description") {
            return NodeKind::Description;
        }
        if str_eq(name, "directives") {
            return NodeKind::Directives;
        }
        if str_eq(name, "directive") {
            return NodeKind::Directive;
        }
        if str_eq(name, "directive_locations") {
            return NodeKind::DirectiveLocations;
        }
        if str_eq(name, "directive_location") {
            return NodeKind::DirectiveLocation;
        }
        if str_eq(name, "implements_interfaces") {
            return NodeKind::ImplementsInterfaces;
        }
        if str_eq(name, "type") {
            return NodeKind::Type;
        }
        if str_eq(name, "named_type") {
            return NodeKind::NamedType;
        }
        if str_eq(name, "list_type") {
            return NodeKind::ListType;
        }
        if str_eq(name, "non_null_type") {
            return NodeKind::NonNullType;
        }
        if str_eq(name, "fields_definition") {
            return NodeKind::FieldsDefinition;
        }
        if str_eq(name, "field_definition") {
            return NodeKind::FieldDefinition;
        }
        if str_eq(name, "arguments_definition") {
            return NodeKind::ArgumentsDefinition;
        }
        if str_eq(name, "input_fields_definition") {
            return NodeKind::InputFieldsDefinition;
        }
        if str_eq(name, "input_value_definition") {
            return NodeKind::InputValueDefinition;
        }
        if str_eq(name, "enum_values_definition") {
            return NodeKind::EnumValuesDefinition;
        }
        if str_eq(name, "enum_value_definition") {
            return NodeKind::EnumValueDefinition;
        }
        if str_eq(name, "enum_value") {
            return NodeKind::EnumValue;
        }
        if str_eq(name, "union_member_types") {
            return NodeKind::UnionMemberTypes;
        }
        if str_eq(name, "default_value") {
            return NodeKind::DefaultValue;
        }
        if str_eq(name, "value") {
            return NodeKind::Value;
        }
        if str_eq(name, "string_value") {
            return NodeKind::StringValue;
        }
        if str_eq(name, "int_value") {
            return NodeKind::IntValue;
        }
        if str_eq(name, "float_value") {
            return NodeKind::FloatValue;
        }
        if str_eq(name, "boolean_value") {
            return NodeKind::BooleanValue;
        }
        if str_eq(name, "null_value") {
            return NodeKind::NullValue;
        }
        if str_eq(name, "list_value") {
            return NodeKind::ListValue;
        }
        if str_eq(name, "object_value") {
            return NodeKind::ObjectValue;
        }
        if str_eq(name, "object_field") {
            return NodeKind::ObjectField;
        }
        if str_eq(name, "comment") {
            return NodeKind::Comment;
        }
        if str_eq(name, "ERROR") {
            return NodeKind::Error;
        }
        if str_eq(name, "ARGUMENT_DEFINITION") {
            return NodeKind::ArgumentDefinitionLocation;
        }
        if str_eq(name, "ENUM") {
            return NodeKind::EnumLocation;
        }
        if str_eq(name, "ENUM_VALUE") {
            return NodeKind::EnumValueLocation;
        }
        if str_eq(name, "FIELD_DEFINITION") {
            return NodeKind::FieldDefinitionLocation;
        }
        if str_eq(name, "INPUT_FIELD_DEFINITION") {
            return NodeKind::InputFieldDefinitionLocation;
        }
        if str_eq(name, "INPUT_OBJECT") {
            return NodeKind::InputObjectLocation;
        }
        if str_eq(name, "INTERFACE") {
            return NodeKind::InterfaceLocation;
        }
        if str_eq(name, "OBJECT") {
            return NodeKind::ObjectLocation;
        }
        if str_eq(name, "SCALAR") {
            return NodeKind::ScalarLocation;
        }
        if str_eq(name, "SCHEMA") {
            return NodeKind::SchemaLocation;
        }
        if str_eq(name, "UNION") {
            return NodeKind::UnionLocation;
        }
        NodeKind::Other
    }
}

/// The label that a grammar field of the given name stands for.
pub open spec fn label_named(name: Seq<char>) -> FieldLabel {
    if name == "location"@ {
        FieldLabel::Location
    } else {
        FieldLabel::Other
    }
}

impl FieldLabel {
    /// The label of a child under the given grammar field, if any.
    pub fn from_name(name: Option<&str>) -> (label: FieldLabel)
        ensures
            label == match name {
                Some(n) => label_named(n@),
                None => FieldLabel::Unlabelled,
            },
    {
        match name {
            Some(n) => if str_eq(n, "location") {
                FieldLabel::Location
            } else {
                FieldLabel::Other
            },
            None => FieldLabel::Unlabelled,
        }
    }
}

/// One node of a syntax tree.
#[derive(Debug, PartialEq, Eq, Hash)]
pub struct SyntaxNode {
    pub kind: NodeKind,
    pub label: FieldLabel,
    /// Named nodes stand for grammar rules, the others for literal tokens.
    pub named: bool,
    /// Extras, such as comments, may appear anywhere.
    pub extra: bool,
    pub range: Range,
    pub children: Vec<SyntaxNode>,
}

/// What a position or a node lookup hands back by reference, read as a value.
pub open spec fn deref_opt<T>(o: Option<&T>) -> Option<T> {
    match o {
        Some(r) => Some(*r),
        None => None,
    }
}

impl SyntaxNode {
    /// Named and not an extra: the children that lowering looks at.
    pub open spec fn is_relevant(self) -> bool {
        self.named && !self.extra
    }

    pub open spec fn is_error(self) -> bool {
        self.kind == NodeKind::Error
    }

    /// The index of the first named child of the given kind at or after `from`.
    pub open spec fn named_child_of_kind_from(self, kind: NodeKind, from: int) -> Option<int>
        decreases self.children@.len() - from,
    {
        if from < 0 || from >= self.children@.len() {
            None
        } else if self.children@[from].named && self.children@[from].kind == kind {
            Some(from)
        } else {
            self.named_child_of_kind_from(kind, from + 1)
        }
    }

    /// The first named child of the given kind.
    pub open spec fn spec_child_of_kind(self, kind: NodeKind) -> Option<SyntaxNode> {
        match self.named_child_of_kind_from(kind, 0) {
            Some(i) => Some(self.children@[i]),
            None => None,
        }
    }

    /// The child that carries a node's name: a `Name`, or failing that a
    /// `DirectiveName`.
    pub open spec fn spec_name_node(self) -> Option<SyntaxNode> {
        match self.spec_child_of_kind(NodeKind::Name) {
            Some(n) => Some(n),
            None => self.spec_child_of_kind(NodeKind::DirectiveName),
        }
    }

    /// The index of the first child under the given field label at or after `from`.
    pub open spec fn child_by_label_from(self, label: FieldLabel, from: int) -> Option<int>
        decreases self.children@.len() - from,
    {
        if from < 0 || from >= self.children@.len() {
            None
        } else if self.children@[from].label == label {
            Some(from)
        } else {
            self.child_by_label_from(label, from + 1)
        }
    }

    pub open spec fn spec_child_by_label(self, label: FieldLabel) -> Option<SyntaxNode> {
        match self.child_by_label_from(label, 0) {
            Some(i) => Some(self.children@[i]),
            None => None,
        }
    }

    /// Whether the node is named and no error node.
    pub open spec fn is_sound(self) -> bool {
        self.named && !self.is_error()
    }

    /// How many of the first `upto` children are named and no error nodes.
    pub open spec fn sound_count(self, upto: int) -> nat
        decreases upto,
    {
        if upto <= 0 {
            0
        } else {
            self.sound_count(upto - 1) + if self.children@[upto - 1].is_sound() {
                1nat
            } else {
                0nat
            }
        }
    }

    /// The index of the first child at or after `from` that is named and
    /// no error node.
    pub open spec fn first_sound_from(self, from: int) -> Option<int>
        decreases self.children@.len() - from,
    {
        if from < 0 || from >= self.children@.len() {
            None
        } else if self.children@[from].is_sound() {
            Some(from)
        } else {
            self.first_sound_from(from + 1)
        }
    }

    /// The only named child, error nodes ignored: where exactly one child
    /// is named and no error node, that child; where there is none or there
    /// are several, nothing. An error node is never the result.
    pub open spec fn spec_sole_named_child(self) -> Option<SyntaxNode> {
        if self.sound_count(self.children@.len() as int) == 1 {
            match self.first_sound_from(0) {
                Some(i) => Some(self.children@[i]),
                None => None,
            }
        } else {
            None
        }
    }

    /// The index of the first child at or after `from` whose range contains `at`.
    pub open spec fn child_containing_from(self, at: Point, from: int) -> Option<int>
        decreases self.children@.len() - from,
    {
        if from < 0 || from >= self.children@.len() {
            None
        } else if self.children@[from].range.spec_contains(at) {
            Some(from)
        } else {
            self.child_containing_from(at, from + 1)
        }
    }

    /// The smallest named node around `at`: the deepest named node on the
    /// chain of nodes that starts here and steps, at each node, into its
    /// first child that contains `at`. `None` when this node does not
    /// contain `at` or no node on the chain is named.
    pub open spec fn spec_named_node_at(self, at: Point) -> Option<SyntaxNode>
        decreases self,
    {
        if !self.range.spec_contains(at) {
            None
        } else {
            let deeper = match self.child_containing_from(at, 0) {
                Some(i) => if 0 <= i < self.children@.len() {
                    self.children@[i].spec_named_node_at(at)
                } else {
                    None
                },
                None => None,
            };
            match deeper {
                Some(n) => Some(n),
                None => if self.named {
                    Some(self)
                } else {
                    None
                },
            }
        }
    }

    /// A child found by kind is a named child of that kind, and a smaller tree.
    pub proof fn lemma_child_of_kind(self, kind: NodeKind)
        ensures
            self.spec_child_of_kind(kind) matches Some(c) ==> c.named && c.kind == kind
                && decreases_to!(self => c),
    {
        broadcast use vstd::std_specs::vec::axiom_vec_index_decreases;

        self.lemma_child_of_kind_from(kind, 0);
    }

    proof fn lemma_child_of_kind_from(self, kind: NodeKind, from: int)
        requires
            0 <= from,
        ensures
            self.named_child_of_kind_from(kind, from) matches Some(i) ==> from <= i
                < self.children@.len() && self.children@[i].named && self.children@[i].kind
                == kind,
        decreases self.children@.len() - from,
    {
        if from < self.children@.len() {
            self.lemma_child_of_kind_from(kind, from + 1);
        }
    }

    proof fn lemma_first_sound_from(self, from: int)
        requires
            0 <= from,
        ensures
            self.first_sound_from(from) matches Some(i) ==> from <= i < self.children@.len()
                && self.children@[i].is_sound(),
        decreases self.children@.len() - from,
    {
        if from < self.children@.len() {
            self.lemma_first_sound_from(from + 1);
        }
    }

    /// The sole named child is a named child, no error node, and a smaller tree.
    pub proof fn lemma_sole_named_child(self)
        ensures
            self.spec_sole_named_child() matches Some(c) ==> c.named && !c.is_error()
                && decreases_to!(self => c),
    {
        broadcast use vstd::std_specs::vec::axiom_vec_index_decreases;

        self.lemma_first_sound_from(0);
    }

    /// The smallest named node around `at`, as `spec_named_node_at` gives
    /// it, with the kind of the node above it; `parent` is the kind of the
    /// node above this one, if there is one.
    pub open spec fn spec_named_node_under(self, parent: Option<NodeKind>, at: Point) -> Option<
        (Option<NodeKind>, SyntaxNode),
    >
        decreases self,
    {
        if !self.range.spec_contains(at) {
            None
        } else {
            let deeper = match self.child_containing_from(at, 0) {
                Some(i) => if 0 <= i < self.children@.len() {
                    self.children@[i].spec_named_node_under(Some(self.kind), at)
                } else {
                    None
                },
                None => None,
            };
            match deeper {
                Some(found) => Some(found),
                None => if self.named {
                    Some((parent, self))
                } else {
                    None
                },
            }
        }
    }

    /// The node that is found with its parent's kind is the smallest named
    /// node around the point.
    pub proof fn lemma_named_node_under(self, parent: Option<NodeKind>, at: Point)
        ensures
            match self.spec_named_node_under(parent, at) {
                Some(found) => self.spec_named_node_at(at) == Some(found.1),
                None => self.spec_named_node_at(at) is None,
            },
        decreases self,
    {
        if self.range.spec_contains(at) {
            match self.child_containing_from(at, 0) {
                Some(i) => {
                    if 0 <= i < self.children@.len() {
                        self.children@[i].lemma_named_node_under(Some(self.kind), at);
                    }
                },
                None => {},
            }
        }
    }

    /// The first named child of the given kind.
    pub fn child_of_kind(&self, kind: NodeKind) -> (r: Option<&SyntaxNode>)
        ensures
            deref_opt(r) == self.spec_child_of_kind(kind),
    {
        let mut i: usize = 0;
        while i < self.children.len()
            invariant
                i <= self.children@.len(),
                self.named_child_of_kind_from(kind, 0) == self.named_child_of_kind_from(
                    kind,
                    i as int,
                ),
            decreases self.children@.len() - i,
        {
            let child = &self.children[i];
            if child.named && child.kind == kind {
                return Some(child);
            }
            i += 1;
        }
        None
    }

    /// The child that carries the node's name.
    pub fn name_node(&self) -> (r: Option<&SyntaxNode>)
        ensures
            deref_opt(r) == self.spec_name_node(),
    {
        match self.child_of_kind(NodeKind::Name) {
            Some(n) => Some(n),
            None => self.child_of_kind(NodeKind::DirectiveName),
        }
    }

    /// The first child under the given field label.
    pub fn child_by_label(&self, label: FieldLabel) -> (r: Option<&SyntaxNode>)
        ensures
            deref_opt(r) == self.spec_child_by_label(label),
    {
        let mut i: usize = 0;
        while i < self.children.len()
            invariant
                i <= self.children@.len(),
                self.child_by_label_from(label, 0) == self.child_by_label_from(label, i as int),
            decreases self.children@.len() - i,
        {
            let child = &self.children[i];
            if child.label == label {
                return Some(child);
            }
            i += 1;
        }
        None
    }

    /// The only named child, error nodes ignored.
    pub fn sole_named_child(&self) -> (r: Option<&SyntaxNode>)
        ensures
            deref_opt(r) == self.spec_sole_named_child(),
    {
        let n = self.children.len();
        let mut sound: usize = 0;
        let mut first: Option<usize> = None;
        let mut i: usize = 0;
        while i < n
            invariant
                n == self.children@.len(),
                i <= n,
                sound == self.sound_count(i as int),
                sound <= i,
                match first {
                    Some(k) => self.first_sound_from(0) == Some(k as int) && k < i,
                    None => self.first_sound_from(0) == self.first_sound_from(i as int),
                },
            decreases n - i,
        {
            let child = &self.children[i];
            if child.named && !matches!(child.kind, NodeKind::Error) {
                sound += 1;
                if first.is_none() {
                    first = Some(i);
                }
            }
            i += 1;
        }
        if sound == 1 {
            match first {
                Some(k) => Some(&self.children[k]),
                None => None,
            }
        } else {
            None
        }
    }

    /// The smallest named node around a point.
    pub fn named_node_at(&self, at: Point) -> (r: Option<&SyntaxNode>)
        ensures
            deref_opt(r) == self.spec_named_node_at(at),
        decreases self,
    {
        if !self.range.contains(at) {
            return None;
        }
        let mut i: usize = 0;
        let mut deeper: Option<&SyntaxNode> = None;
        while i < self.children.len()
            invariant_except_break
                i <= self.children@.len(),
                deeper is None,
                self.child_containing_from(at, 0) == self.child_containing_from(at, i as int),
            ensures
                match self.child_containing_from(at, 0) {
                    Some(k) => 0 <= k < self.children@.len() && deref_opt(deeper)
                        == self.children@[k].spec_named_node_at(at),
                    None => deeper is None,
                },
            decreases self.children@.len() - i,
        {
            let child = &self.children[i];
            if child.range.contains(at) {
                deeper = child.named_node_at(at);
                break;
            }
            i += 1;
        }
        match deeper {
            Some(n) => Some(n),
            None => if self.named {
                Some(self)
            } else {
                None
            },
        }
    }
}

/// The nodes behind a sequence of references.
pub open spec fn nodes_of(refs: Seq<&SyntaxNode>) -> Seq<SyntaxNode> {
    refs.map_values(|n: &SyntaxNode| *n)
}

impl SyntaxNode {
    /// The relevant children among the first `upto`, in order.
    pub open spec fn relevant_upto(self, upto: int) -> Seq<SyntaxNode>
        decreases upto,
    {
        if upto <= 0 {
            Seq::empty()
        } else if self.children@[upto - 1].is_relevant() {
            self.relevant_upto(upto - 1).push(self.children@[upto - 1])
        } else {
            self.relevant_upto(upto - 1)
        }
    }

    /// The relevant children of the given kind among the first `upto`, in order.
    pub open spec fn of_kind_upto(self, kind: NodeKind, upto: int) -> Seq<SyntaxNode>
        decreases upto,
    {
        if upto <= 0 {
            Seq::empty()
        } else if self.children@[upto - 1].is_relevant() && self.children@[upto - 1].kind == kind {
            self.of_kind_upto(kind, upto - 1).push(self.children@[upto - 1])
        } else {
            self.of_kind_upto(kind, upto - 1)
        }
    }

    /// The nodes of the subtree in preorder: the node, then the subtrees of
    /// its children from first to last.
    pub open spec fn spec_preorder(self) -> Seq<SyntaxNode>
        decreases self, 1int, 0int,
    {
        seq![self] + self.preorder_children(self.children@.len() as int)
    }

    /// The nodes of the subtrees of the first `upto` children, in preorder.
    pub open spec fn preorder_children(self, upto: int) -> Seq<SyntaxNode>
        decreases self, 0int, upto,
    {
        if upto <= 0 || upto > self.children@.len() {
            Seq::empty()
        } else {
            self.preorder_children(upto - 1) + self.children@[upto - 1].spec_preorder()
        }
    }

    /// The chain of nodes around a point, outermost first: this node, if it
    /// contains the point, and then the chain of its first child that does.
    pub open spec fn spec_chain_at(self, at: Point) -> Seq<SyntaxNode>
        decreases self,
    {
        if !self.range.spec_contains(at) {
            Seq::empty()
        } else {
            match self.child_containing_from(at, 0) {
                Some(i) => if 0 <= i < self.children@.len() {
                    seq![self] + self.children@[i].spec_chain_at(at)
                } else {
                    seq![self]
                },
                None => seq![self],
            }
        }
    }

    /// The index of the first child at or after `from` whose range encloses
    /// the given range.
    pub open spec fn child_enclosing_from(self, range: Range, from: int) -> Option<int>
        decreases self.children@.len() - from,
    {
        if from < 0 || from >= self.children@.len() {
            None
        } else if self.children@[from].range.spec_encloses(range) {
            Some(from)
        } else {
            self.child_enclosing_from(range, from + 1)
        }
    }

    /// The smallest named node around a range: the deepest named node on
    /// the chain of nodes that starts here and steps, at each node, into its
    /// first child that encloses the range.
    pub open spec fn spec_named_descendant_for_range(self, range: Range) -> Option<SyntaxNode>
        decreases self,
    {
        if !self.range.spec_encloses(range) {
            None
        } else {
            let deeper = match self.child_enclosing_from(range, 0) {
                Some(i) => if 0 <= i < self.children@.len() {
                    self.children@[i].spec_named_descendant_for_range(range)
                } else {
                    None
                },
                None => None,
            };
            match deeper {
                Some(n) => Some(n),
                None => if self.named {
                    Some(self)
                } else {
                    None
                },
            }
        }
    }

    /// The text that the node covers, if its range is a slice of the source.
    pub fn text<'a>(&self, source: &'a str) -> (r: Option<&'a str>)
        ensures
            match r {
                Some(t) => spec_slice(
                    source@,
                    self.range.start_byte as int,
                    self.range.end_byte as int,
                ) == Some(t@),
                None => spec_slice(
                    source@,
                    self.range.start_byte as int,
                    self.range.end_byte as int,
                ) is None,
            },
    {
        slice(source, self.range.start_byte, self.range.end_byte)
    }

    /// The children that are named and no extras.
    pub fn relevant_children(&self) -> (r: Vec<&SyntaxNode>)
        ensures
            nodes_of(r@) == self.relevant_upto(self.children@.len() as int),
    {
        let mut out: Vec<&SyntaxNode> = Vec::new();
        let mut i: usize = 0;
        proof {
            assert(nodes_of(out@) =~= Seq::empty());
        }
        while i < self.children.len()
            invariant
                i <= self.children@.len(),
                nodes_of(out@) == self.relevant_upto(i as int),
            decreases self.children@.len() - i,
        {
            let child = &self.children[i];
            if child.named && !child.extra {
                let ghost before = out@;
                out.push(child);
                proof {
                    assert(nodes_of(out@) =~= nodes_of(before).push(*child));
                }
            }
            i += 1;
        }
        out
    }

    /// The relevant children of the given kind.
    pub fn children_of_kind(&self, kind: NodeKind) -> (r: Vec<&SyntaxNode>)
        ensures
            nodes_of(r@) == self.of_kind_upto(kind, self.children@.len() as int),
    {
        let mut out: Vec<&SyntaxNode> = Vec::new();
        let mut i: usize = 0;
        proof {
            assert(nodes_of(out@) =~= Seq::empty());
        }
        while i < self.children.len()
            invariant
                i <= self.children@.len(),
                nodes_of(out@) == self.of_kind_upto(kind, i as int),
            decreases self.children@.len() - i,
        {
            let child = &self.children[i];
            if child.named && !child.extra && child.kind == kind {
                let ghost before = out@;
                out.push(child);
                proof {
                    assert(nodes_of(out@) =~= nodes_of(before).push(*child));
                }
            }
            i += 1;
        }
        out
    }

    /// Appends the nodes of the subtree in preorder.
    pub fn collect_preorder<'a>(&'a self, out: &mut Vec<&'a SyntaxNode>)
        ensures
            nodes_of(final(out)@) == nodes_of(old(out)@) + self.spec_preorder(),
        decreases self,
    {
        let ghost start = nodes_of(out@);
        let ghost before = out@;
        out.push(self);
        proof {
            assert(nodes_of(out@) =~= nodes_of(before).push(*self));
            assert(nodes_of(out@) =~= start + seq![*self] + self.preorder_children(0));
        }
        let mut i: usize = 0;
        while i < self.children.len()
            invariant
                i <= self.children@.len(),
                nodes_of(out@) == start + seq![*self] + self.preorder_children(i as int),
            decreases self.children@.len() - i,
        {
            let ghost prev = nodes_of(out@);
            self.children[i].collect_preorder(out);
            proof {
                assert(start + seq![*self] + self.preorder_children(i + 1) =~= prev
                    + self.children@[i as int].spec_preorder());
            }
            i += 1;
        }
        proof {
            assert(start + seq![*self] + self.preorder_children(self.children@.len() as int)
                =~= start + self.spec_preorder());
        }
    }

    /// The nodes of the subtree in preorder.
    pub fn preorder(&self) -> (r: Vec<&SyntaxNode>)
        ensures
            nodes_of(r@) == self.spec_preorder(),
    {
        let mut out: Vec<&SyntaxNode> = Vec::new();
        proof {
            assert(nodes_of(out@) =~= Seq::empty());
        }
        self.collect_preorder(&mut out);
        proof {
            assert(Seq::<SyntaxNode>::empty() + self.spec_preorder() =~= self.spec_preorder());
        }
        out
    }

    /// Appends the chain of nodes around a point, outermost first.
    pub fn collect_chain_at<'a>(&'a self, at: Point, out: &mut Vec<&'a SyntaxNode>)
        ensures
            nodes_of(final(out)@) == nodes_of(old(out)@) + self.spec_chain_at(at),
        decreases self,
    {
        let ghost start = nodes_of(out@);
        if !self.range.contains(at) {
            proof {
                assert(start + Seq::empty() =~= start);
            }
            return ;
        }
        let ghost before = out@;
        out.push(self);
        proof {
            assert(nodes_of(out@) =~= nodes_of(before).push(*self));
            assert(nodes_of(out@) =~= start + seq![*self]);
        }
        let mut i: usize = 0;
        while i < self.children.len()
            invariant
                i <= self.children@.len(),
                self.range.spec_contains(at),
                start == nodes_of(old(out)@),
                nodes_of(out@) == start + seq![*self],
                self.child_containing_from(at, 0) == self.child_containing_from(at, i as int),
            decreases self.children@.len() - i,
        {
            let child = &self.children[i];
            if child.range.contains(at) {
                child.collect_chain_at(at, out);
                proof {
                    assert(self.child_containing_from(at, i as int) == Some(i as int));
                    assert(self.spec_chain_at(at) == seq![*self] + child.spec_chain_at(at));
                    assert(start + seq![*self] + child.spec_chain_at(at) =~= start + (seq![*self]
                        + child.spec_chain_at(at)));
                }
                return ;
            }
            i += 1;
        }
    }

    /// The nearest node of the given kind around a point, the smallest node
    /// around the point included.
    pub fn enclosing_of_kind(&self, at: Point, kind: NodeKind) -> (r: Option<&SyntaxNode>)
        ensures
            match r {
                Some(n) => exists|k: int|
                    0 <= k < self.spec_chain_at(at).len() && self.spec_chain_at(at)[k] == *n
                        && n.kind == kind && forall|j: int|
                        k < j < self.spec_chain_at(at).len() ==> (
                        #[trigger] self.spec_chain_at(at)[j]).kind != kind,
                None => forall|j: int|
                    0 <= j < self.spec_chain_at(at).len() ==> (#[trigger] self.spec_chain_at(
                        at,
                    )[j]).kind != kind,
            },
    {
        let mut chain: Vec<&SyntaxNode> = Vec::new();
        proof {
            assert(nodes_of(chain@) =~= Seq::empty());
        }
        self.collect_chain_at(at, &mut chain);
        proof {
            assert(Seq::<SyntaxNode>::empty() + self.spec_chain_at(at) =~= self.spec_chain_at(at));
        }
        let ghost nodes = self.spec_chain_at(at);
        let mut k: usize = chain.len();
        while k > 0
            invariant
                k <= chain@.len(),
                nodes == nodes_of(chain@),
                nodes == self.spec_chain_at(at),
                forall|j: int| k <= j < nodes.len() ==> (#[trigger] nodes[j]).kind != kind,
            decreases k,
        {
            k -= 1;
            let n = chain[k];
            if n.kind == kind {
                proof {
                    assert(nodes[k as int] == *n);
                }
                return Some(n);
            }
        }
        None
    }

    /// The smallest named node around a point, with the kind of its parent.
    pub fn named_node_under(&self, parent: Option<NodeKind>, at: Point) -> (r: Option<
        (Option<NodeKind>, &SyntaxNode),
    >)
        ensures
            match r {
                Some(found) => self.spec_named_node_under(parent, at) == Some(
                    (found.0, *found.1),
                ),
                None => self.spec_named_node_under(parent, at) is None,
            },
        decreases self,
    {
        if !self.range.contains(at) {
            return None;
        }
        let mut i: usize = 0;
        let mut deeper: Option<(Option<NodeKind>, &SyntaxNode)> = None;
        while i < self.children.len()
            invariant_except_break
                i <= self.children@.len(),
                deeper is None,
                self.child_containing_from(at, 0) == self.child_containing_from(at, i as int),
            ensures
                match self.child_containing_from(at, 0) {
                    Some(k) => 0 <= k < self.children@.len() && match deeper {
                        Some(found) => self.children@[k].spec_named_node_under(
                            Some(self.kind),
                            at,
                        ) == Some((found.0, *found.1)),
                        None => self.children@[k].spec_named_node_under(Some(self.kind), at)
                            is None,
                    },
                    None => deeper is None,
                },
            decreases self.children@.len() - i,
        {
            let child = &self.children[i];
            if child.range.contains(at) {
                deeper = child.named_node_under(Some(self.kind), at);
                break;
            }
            i += 1;
        }
        match deeper {
            Some(found) => Some(found),
            None => if self.named {
                Some((parent, self))
            } else {
                None
            },
        }
    }

    /// The nodes above the innermost node around a point, nearest first.
    pub open spec fn spec_parents_at(self, at: Point) -> Seq<SyntaxNode> {
        let chain = self.spec_chain_at(at);
        if chain.len() == 0 {
            Seq::empty()
        } else {
            Seq::new((chain.len() - 1) as nat, |i: int| chain[chain.len() - 2 - i])
        }
    }

    /// The nodes above the innermost node around a point, nearest first.
    pub fn parents_at(&self, at: Point) -> (r: Vec<&SyntaxNode>)
        ensures
            nodes_of(r@) == self.spec_parents_at(at),
    {
        let mut chain: Vec<&SyntaxNode> = Vec::new();
        proof {
            assert(nodes_of(chain@) =~= Seq::empty());
        }
        self.collect_chain_at(at, &mut chain);
        proof {
            assert(Seq::<SyntaxNode>::empty() + self.spec_chain_at(at) =~= self.spec_chain_at(at));
        }
        let mut out: Vec<&SyntaxNode> = Vec::new();
        if chain.len() == 0 {
            proof {
                assert(nodes_of(out@) =~= Seq::empty());
            }
            return out;
        }
        let n = chain.len();
        let mut k: usize = n - 1;
        let ghost nodes = self.spec_chain_at(at);
        proof {
            assert(nodes_of(out@) =~= Seq::new(0nat, |i: int| nodes[n - 2 - i]));
        }
        while k > 0
            invariant
                n == chain@.len(),
                n > 0,
                k < n,
                nodes == nodes_of(chain@),
                nodes_of(out@) == Seq::new((n - 1 - k) as nat, |i: int| nodes[n - 2 - i]),
            decreases k,
        {
            k -= 1;
            let ghost before = out@;
            let node = chain[k];
            out.push(node);
            proof {
                assert(nodes_of(out@) =~= nodes_of(before).push(*node));
                assert(nodes[k as int] == *node);
                assert(nodes_of(out@) =~= Seq::new((n - 1 - k) as nat, |i: int| nodes[n - 2 - i]));
            }
        }
        out
    }

    /// The nearest node of the given kind above the innermost node around a point.
    pub fn parent_of_kind(&self, at: Point, kind: NodeKind) -> (r: Option<&SyntaxNode>)
        ensures
            match r {
                Some(n) => exists|k: int|
                    0 <= k < self.spec_parents_at(at).len() && self.spec_parents_at(at)[k] == *n
                        && n.kind == kind && forall|j: int|
                        0 <= j < k ==> (#[trigger] self.spec_parents_at(at)[j]).kind != kind,
                None => forall|j: int|
                    0 <= j < self.spec_parents_at(at).len() ==> (#[trigger] self.spec_parents_at(
                        at,
                    )[j]).kind != kind,
            },
    {
        let parents = self.parents_at(at);
        let ghost nodes = self.spec_parents_at(at);
        let mut k: usize = 0;
        while k < parents.len()
            invariant
                k <= parents@.len(),
                nodes == nodes_of(parents@),
                nodes == self.spec_parents_at(at),
                forall|j: int| 0 <= j < k ==> (#[trigger] nodes[j]).kind != kind,
            decreases parents@.len() - k,
        {
            let n = parents[k];
            if n.kind == kind {
                proof {
                    assert(nodes[k as int] == *n);
                }
                return Some(n);
            }
            k += 1;
        }
        None
    }

    /// Whether a node of the given kind lies above the innermost node
    /// around a point.
    pub fn has_parent_of_kind(&self, at: Point, kind: NodeKind) -> (b: bool)
        ensures
            b == exists|k: int|
                0 <= k < self.spec_parents_at(at).len() && (#[trigger] self.spec_parents_at(
                    at,
                )[k]).kind == kind,
    {
        self.parent_of_kind(at, kind).is_some()
    }

    /// The first node of the subtree, in preorder, that the test accepts.
    pub fn find_descendant<F: Fn(&SyntaxNode) -> bool>(&self, f: F) -> (r: Option<&SyntaxNode>)
        requires
            forall|n: &SyntaxNode| f.requires((n,)),
        ensures
            match r {
                Some(n) => exists|k: int|
                    0 <= k < self.spec_preorder().len() && self.spec_preorder()[k] == *n
                        && f.ensures((n,), true) && forall|j: int|
                        0 <= j < k ==> f.ensures((&#[trigger] self.spec_preorder()[j],), false),
                None => forall|j: int|
                    0 <= j < self.spec_preorder().len() ==> f.ensures(
                        (&#[trigger] self.spec_preorder()[j],),
                        false,
                    ),
            },
    {
        let all = self.preorder();
        let ghost nodes = self.spec_preorder();
        let mut k: usize = 0;
        while k < all.len()
            invariant
                k <= all@.len(),
                nodes == nodes_of(all@),
                nodes == self.spec_preorder(),
                forall|n: &SyntaxNode| f.requires((n,)),
                forall|j: int| 0 <= j < k ==> f.ensures((&#[trigger] nodes[j],), false),
            decreases all@.len() - k,
        {
            let n = all[k];
            if f(n) {
                proof {
                    assert(nodes[k as int] == *n);
                }
                return Some(n);
            }
            proof {
                assert(nodes[k as int] == *n);
            }
            k += 1;
        }
        None
    }

    /// The smallest named node around a range.
    pub fn named_descendant_for_range(&self, range: Range) -> (r: Option<&SyntaxNode>)
        ensures
            deref_opt(r) == self.spec_named_descendant_for_range(range),
        decreases self,
    {
        if !self.range.encloses(&range) {
            return None;
        }
        let mut i: usize = 0;
        let mut deeper: Option<&SyntaxNode> = None;
        while i < self.children.len()
            invariant_except_break
                i <= self.children@.len(),
                deeper is None,
                self.child_enclosing_from(range, 0) == self.child_enclosing_from(range, i as int),
            ensures
                match self.child_enclosing_from(range, 0) {
                    Some(k) => 0 <= k < self.children@.len() && deref_opt(deeper)
                        == self.children@[k].spec_named_descendant_for_range(range),
                    None => deeper is None,
                },
            decreases self.children@.len() - i,
        {
            let child = &self.children[i];
            if child.range.encloses(&range) {
                deeper = child.named_descendant_for_range(range);
                break;
            }
            i += 1;
        }
        match deeper {
            Some(n) => Some(n),
            None => if self.named {
                Some(self)
            } else {
                None
            },
        }
    }
}

/// A parsed document.
#[derive(Debug, PartialEq, Eq, Hash)]
pub struct SyntaxTree {
    pub root: SyntaxNode,
}

} // verus!
