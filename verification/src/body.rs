//! The bodies of type definitions: fields, arguments, enum values, union
//! members and constant values.

use vstd::prelude::*;
use vstd::string::StringExecFns;
use crate::ir::{Directive, DirectiveView, Name, NameView};
use crate::lower::directive_views;
use crate::syntax::Range;
use crate::ty::{Ty, TypeView};

verus! {

/// A constant value. A float keeps the text it was written with.
#[derive(Debug, PartialEq, Eq)]
pub enum Value {
    String(String),
    Int(i32),
    Float(String),
    Boolean(bool),
    Null,
    Enum(String),
    List(Vec<Value>),
    Object(Vec<(Name, Value)>),
}

pub enum ValueView {
    String(Seq<char>),
    Int(i32),
    Float(Seq<char>),
    Boolean(bool),
    Null,
    Enum(Seq<char>),
    List(Seq<ValueView>),
    Object(Seq<(NameView, ValueView)>),
}

/// The view of a value: the same value over the views of its parts.
pub open spec fn value_view(value: Value) -> ValueView
    decreases value,
{
    match value {
        Value::String(s) => ValueView::String(s@),
        Value::Int(i) => ValueView::Int(i),
        Value::Float(s) => ValueView::Float(s@),
        Value::Boolean(b) => ValueView::Boolean(b),
        Value::Null => ValueView::Null,
        Value::Enum(s) => ValueView::Enum(s@),
        Value::List(values) => ValueView::List(
            Seq::new(
                values@.len(),
                |i: int|
                    if 0 <= i < values@.len() {
                        value_view(values@[i])
                    } else {
                        ValueView::Null
                    },
            ),
        ),
        Value::Object(fields) => ValueView::Object(
            Seq::new(
                fields@.len(),
                |i: int|
                    if 0 <= i < fields@.len() {
                        (fields@[i].0@, value_view(fields@[i].1))
                    } else {
                        (NameView { text: Seq::empty(), range: None }, ValueView::Null)
                    },
            ),
        ),
    }
}

impl View for Value {
    type V = ValueView;

    open spec fn view(&self) -> ValueView {
        value_view(*self)
    }
}

/// The views of a sequence of values.
pub open spec fn value_views(s: Seq<Value>) -> Seq<ValueView> {
    Seq::new(s.len(), |i: int| s[i]@)
}

/// The views of a sequence of object fields.
pub open spec fn object_field_views(s: Seq<(Name, Value)>) -> Seq<(NameView, ValueView)> {
    Seq::new(s.len(), |i: int| (s[i].0@, s[i].1@))
}

/// What is wrong at some place of a file.
#[derive(Debug, PartialEq, Eq)]
pub enum DiagnosticKind {
    /// The text does not parse at this place.
    Syntax,
    /// No item of the neighborhood bears this name.
    UnresolvedType(Name),
    /// What is written here is no complete part of a definition.
    Malformed,
}

pub enum DiagnosticKindView {
    Syntax,
    UnresolvedType(NameView),
    Malformed,
}

impl View for DiagnosticKind {
    type V = DiagnosticKindView;

    open spec fn view(&self) -> DiagnosticKindView {
        match self {
            DiagnosticKind::Syntax => DiagnosticKindView::Syntax,
            DiagnosticKind::UnresolvedType(name) => DiagnosticKindView::UnresolvedType(name@),
            DiagnosticKind::Malformed => DiagnosticKindView::Malformed,
        }
    }
}

/// Something wrong, with the place where it is wrong.
#[derive(Debug, PartialEq, Eq)]
pub struct Diagnostic {
    pub range: Range,
    pub kind: DiagnosticKind,
}

pub struct DiagnosticView {
    pub range: Range,
    pub kind: DiagnosticKindView,
}

impl View for Diagnostic {
    type V = DiagnosticView;

    open spec fn view(&self) -> DiagnosticView {
        DiagnosticView { range: self.range, kind: self.kind@ }
    }
}

/// The views of a sequence of diagnostics.
pub open spec fn diagnostic_views(s: Seq<Diagnostic>) -> Seq<DiagnosticView> {
    s.map_values(|d: Diagnostic| d@)
}

/// How grave a diagnostic is.
#[derive(Clone, Copy, Debug, PartialEq, Eq, Structural)]
pub enum Severity {
    Error,
    Warning,
}

impl DiagnosticKindView {
    /// The number in the stable code of this kind of diagnostic.
    pub open spec fn code_number(self) -> u32 {
        match self {
            DiagnosticKindView::Syntax => 1,
            DiagnosticKindView::UnresolvedType(_) => 2,
            DiagnosticKindView::Malformed => 3,
        }
    }
}

impl Clone for DiagnosticKind {
    fn clone(&self) -> (kind: DiagnosticKind)
        ensures
            kind@ == self@,
    {
        match self {
            DiagnosticKind::Syntax => DiagnosticKind::Syntax,
            DiagnosticKind::UnresolvedType(name) => DiagnosticKind::UnresolvedType(name.clone()),
            DiagnosticKind::Malformed => DiagnosticKind::Malformed,
        }
    }
}

impl Clone for Diagnostic {
    fn clone(&self) -> (d: Diagnostic)
        ensures
            d@ == self@,
    {
        Diagnostic { range: self.range, kind: self.kind.clone() }
    }
}

impl Diagnostic {
    pub fn new(range: Range, kind: DiagnosticKind) -> (d: Diagnostic)
        ensures
            d.range == range,
            d.kind == kind,
    {
        Diagnostic { range, kind }
    }

    /// The number in the diagnostic's code.
    pub fn code_number(&self) -> (n: u32)
        ensures
            n == self@.kind.code_number(),
    {
        match self.kind {
            DiagnosticKind::Syntax => 1,
            DiagnosticKind::UnresolvedType(_) => 2,
            DiagnosticKind::Malformed => 3,
        }
    }

    /// The stable code of the diagnostic.
    pub fn code(&self) -> (code: &'static str)
        ensures
            code@ == match self@.kind {
                DiagnosticKindView::Syntax => "E0001"@,
                DiagnosticKindView::UnresolvedType(_) => "E0002"@,
                DiagnosticKindView::Malformed => "E0003"@,
            },
    {
        match self.kind {
            DiagnosticKind::Syntax => "E0001",
            DiagnosticKind::UnresolvedType(_) => "E0002",
            DiagnosticKind::Malformed => "E0003",
        }
    }

    pub fn severity(&self) -> (severity: Severity)
        ensures
            severity == Severity::Error,
    {
        Severity::Error
    }

    /// What the diagnostic says.
    pub fn message(&self) -> (message: String)
        ensures
            message@ == match self@.kind {
                DiagnosticKindView::Syntax => "syntax error"@,
                DiagnosticKindView::UnresolvedType(name) => "unresolved type `"@ + name.text
                    + "`"@,
                DiagnosticKindView::Malformed => "malformed definition"@,
            },
    {
        match &self.kind {
            DiagnosticKind::Syntax => "syntax error".to_owned(),
            DiagnosticKind::Malformed => "malformed definition".to_owned(),
            DiagnosticKind::UnresolvedType(name) => {
                let mut message = "unresolved type `".to_owned();
                message.append(name.as_str());
                message.append("`");
                message
            },
        }
    }
}

/// One value of an enum.
#[derive(Clone, Debug, PartialEq, Eq)]
pub struct Variant {
    pub name: Name,
}

pub struct VariantView {
    pub name: NameView,
}

impl View for Variant {
    type V = VariantView;

    open spec fn view(&self) -> VariantView {
        VariantView { name: self.name@ }
    }
}

/// The views of a sequence of enum values.
pub open spec fn variant_views(s: Seq<Variant>) -> Seq<VariantView> {
    s.map_values(|v: Variant| v@)
}

/// An argument of a field.
#[derive(Debug, PartialEq, Eq)]
pub struct Arg {
    pub range: Range,
    pub name: Name,
    pub ty: Ty,
    pub default_value: Option<Value>,
    pub directives: Vec<Directive>,
}

pub struct ArgView {
    pub range: Range,
    pub name: NameView,
    pub ty: TypeView,
    pub default_value: Option<ValueView>,
    pub directives: Seq<DirectiveView>,
}

/// The view of a value that may be absent.
pub open spec fn value_view_opt(v: Option<Value>) -> Option<ValueView> {
    match v {
        Some(v) => Some(v@),
        None => None,
    }
}

impl View for Arg {
    type V = ArgView;

    open spec fn view(&self) -> ArgView {
        ArgView {
            range: self.range,
            name: self.name@,
            ty: self.ty@,
            default_value: value_view_opt(self.default_value),
            directives: directive_views(self.directives@),
        }
    }
}

/// The views of a sequence of arguments.
pub open spec fn arg_views(s: Seq<Arg>) -> Seq<ArgView> {
    s.map_values(|a: Arg| a@)
}

/// A field of an object, an interface or an input object.
#[derive(Debug, PartialEq, Eq)]
pub struct Field {
    pub range: Range,
    pub name: Name,
    pub ty: Ty,
    pub directives: Vec<Directive>,
    pub default_value: Option<Value>,
    pub args: Vec<Arg>,
}

pub struct FieldView {
    pub range: Range,
    pub name: NameView,
    pub ty: TypeView,
    pub directives: Seq<DirectiveView>,
    pub default_value: Option<ValueView>,
    pub args: Seq<ArgView>,
}

impl View for Field {
    type V = FieldView;

    open spec fn view(&self) -> FieldView {
        FieldView {
            range: self.range,
            name: self.name@,
            ty: self.ty@,
            directives: directive_views(self.directives@),
            default_value: value_view_opt(self.default_value),
            args: arg_views(self.args@),
        }
    }
}

/// The views of a sequence of fields.
pub open spec fn field_views(s: Seq<Field>) -> Seq<FieldView> {
    s.map_values(|f: Field| f@)
}

/// The views of a sequence of types.
pub open spec fn type_views(s: Seq<Ty>) -> Seq<TypeView> {
    s.map_values(|t: Ty| t@)
}

#[derive(Debug, PartialEq, Eq)]
pub struct ObjectTypeDefinitionBody {
    pub fields: Vec<Field>,
}

#[derive(Debug, PartialEq, Eq)]
pub struct InterfaceDefinitionBody {
    pub fields: Vec<Field>,
}

#[derive(Debug, PartialEq, Eq)]
pub struct InputTypeDefinitionBody {
    pub fields: Vec<Field>,
}

#[derive(Debug, PartialEq, Eq)]
pub struct UnionDefinitionBody {
    pub types: Vec<Ty>,
}

#[derive(Debug, PartialEq, Eq)]
pub struct EnumDefinitionBody {
    pub variants: Vec<Variant>,
}

/// The body of a type definition, by the kind of type.
#[derive(Debug, PartialEq, Eq)]
pub enum ItemBodyKind {
    Object(ObjectTypeDefinitionBody),
    Interface(InterfaceDefinitionBody),
    InputObject(InputTypeDefinitionBody),
    Union(UnionDefinitionBody),
    Enum(EnumDefinitionBody),
    /// A definition whose body is not lowered.
    Todo,
}

pub enum ItemBodyKindView {
    Object(Seq<FieldView>),
    Interface(Seq<FieldView>),
    InputObject(Seq<FieldView>),
    Union(Seq<TypeView>),
    Enum(Seq<VariantView>),
    Todo,
}

impl View for ItemBodyKind {
    type V = ItemBodyKindView;

    open spec fn view(&self) -> ItemBodyKindView {
        match self {
            ItemBodyKind::Object(b) => ItemBodyKindView::Object(field_views(b.fields@)),
            ItemBodyKind::Interface(b) => ItemBodyKindView::Interface(field_views(b.fields@)),
            ItemBodyKind::InputObject(b) => ItemBodyKindView::InputObject(field_views(b.fields@)),
            ItemBodyKind::Union(b) => ItemBodyKindView::Union(type_views(b.types@)),
            ItemBodyKind::Enum(b) => ItemBodyKindView::Enum(variant_views(b.variants@)),
            ItemBodyKind::Todo => ItemBodyKindView::Todo,
        }
    }
}

/// A lowered body with the diagnostics that lowering it gave rise to.
#[derive(Debug, PartialEq, Eq)]
pub struct ItemBody {
    pub diagnostics: Vec<Diagnostic>,
    pub kind: ItemBodyKind,
}

pub struct ItemBodyView {
    pub diagnostics: Seq<DiagnosticView>,
    pub kind: ItemBodyKindView,
}

impl View for ItemBody {
    type V = ItemBodyView;

    open spec fn view(&self) -> ItemBodyView {
        ItemBodyView { diagnostics: diagnostic_views(self.diagnostics@), kind: self.kind@ }
    }
}

} // verus!
