//! Lowering the body of a type definition, with its type references
//! resolved against the file's neighborhood.

use std::sync::Arc;
use vstd::prelude::*;
use crate::body::{
    arg_views, diagnostic_views, field_views, object_field_views, type_views, value_view,
    value_view_opt, value_views, variant_views, Arg, ArgView, Diagnostic, DiagnosticKind, DiagnosticKindView,
    DiagnosticView, EnumDefinitionBody, Field, FieldView, InputTypeDefinitionBody,
    InterfaceDefinitionBody, ItemBody, ItemBodyKind, ItemBodyKindView, ItemBodyView,
    ObjectTypeDefinitionBody, UnionDefinitionBody, Value, ValueView, Variant, VariantView,
};
use crate::db::{Database, SourceView};
use crate::ir::{FileId, Name, NameView};
use crate::lower::{
    directives_of, lower_directives_of, lower_name, lower_name_of, name_from,
    name_of,
};
use crate::syntax::{NodeKind, SyntaxNode};
use crate::text::{
    i32_value, parse_i32, slice, spec_slice, spec_trim_quotes, str_eq, trim_quotes,
};
use crate::ty::{Res, ResView, Ty, TyKind, TyKindView, Type, TypeView};

verus! {

/// What body lowering reads: the inputs, the file being lowered and its text.
pub struct Scope {
    pub source: SourceView,
    pub file: FileId,
    pub text: Seq<char>,
}

/// A lowered value with the diagnostics that lowering it gives rise to.
pub struct Lowering<T> {
    pub value: T,
    pub diagnostics: Seq<DiagnosticView>,
}

/// The text that a node covers.
pub open spec fn text_of(text: Seq<char>, node: SyntaxNode) -> Option<Seq<char>> {
    spec_slice(text, node.range.start_byte as int, node.range.end_byte as int)
}

/// What a `named_type` node lowers to: its name with the items that the
/// name resolves to from the file, or the unresolved name.
pub open spec fn named_type_of(scope: Scope, node: SyntaxNode) -> Option<TypeView> {
    match name_from(scope.text, node) {
        Some(name) => {
            let found = scope.source.resolve(scope.file, name.text);
            Some(
                TypeView {
                    range: node.range,
                    kind: if found.len() == 0 {
                        TyKindView::Unresolved(name)
                    } else {
                        TyKindView::Named(name, ResView::Item(found))
                    },
                },
            )
        },
        None => None,
    }
}

/// What a `list_type` node lowers to: a list of what its sole child lowers to.
pub open spec fn list_type_of(scope: Scope, node: SyntaxNode) -> Option<TypeView>
    decreases node, 0int,
{
    match node.spec_sole_named_child() {
        Some(inner) => {
            proof {
                node.lemma_sole_named_child();
            }
            match type_of(scope, inner) {
                Some(t) => Some(TypeView { range: node.range, kind: TyKindView::List(Box::new(t)) }),
                None => None,
            }
        },
        None => None,
    }
}

/// What a type node lowers to. A `type` node stands for its sole child; a
/// non-null type wraps a named type or a list type.
pub open spec fn type_of(scope: Scope, node: SyntaxNode) -> Option<TypeView>
    decreases node, 2int,
{
    match node.kind {
        NodeKind::Type => match node.spec_sole_named_child() {
            Some(ty) => {
                proof {
                    node.lemma_sole_named_child();
                }
                bare_type_of(scope, ty)
            },
            None => None,
        },
        _ => bare_type_of(scope, node),
    }
}

/// What a named, list or non-null type node lowers to.
pub open spec fn bare_type_of(scope: Scope, ty: SyntaxNode) -> Option<TypeView>
    decreases ty, 1int,
{
    match ty.kind {
        NodeKind::NamedType => named_type_of(scope, ty),
        NodeKind::ListType => list_type_of(scope, ty),
        NodeKind::NonNullType => match ty.spec_sole_named_child() {
            Some(inner) => {
                proof {
                    ty.lemma_sole_named_child();
                }
                let lowered = match inner.kind {
                    NodeKind::NamedType => named_type_of(scope, inner),
                    NodeKind::ListType => list_type_of(scope, inner),
                    _ => None,
                };
                match lowered {
                    Some(t) => Some(
                        TypeView { range: ty.range, kind: TyKindView::NonNull(Box::new(t)) },
                    ),
                    None => None,
                }
            },
            None => None,
        },
        _ => None,
    }
}

/// The diagnostics that lowering a type gives rise to: one for its name, if
/// the name is unresolved, at the place of the name.
pub open spec fn unresolved_in(ty: TypeView) -> Seq<DiagnosticView>
    decreases ty,
{
    match ty.kind {
        TyKindView::Unresolved(name) => seq![
            DiagnosticView { range: ty.range, kind: DiagnosticKindView::UnresolvedType(name) },
        ],
        TyKindView::Named(_, _) => Seq::empty(),
        TyKindView::NonNull(inner) => unresolved_in(*inner),
        TyKindView::List(inner) => unresolved_in(*inner),
    }
}

/// The diagnostics of a type that may have failed to lower.
pub open spec fn unresolved_in_opt(ty: Option<TypeView>) -> Seq<DiagnosticView> {
    match ty {
        Some(t) => unresolved_in(t),
        None => Seq::empty(),
    }
}

/// What a `value` node lowers to: what its sole child spells.
pub open spec fn value_of(text: Seq<char>, node: SyntaxNode) -> Option<ValueView>
    decreases node, 2int, 0int,
{
    if node.kind != NodeKind::Value {
        None
    } else {
        match node.spec_sole_named_child() {
            Some(v) => {
                proof {
                    node.lemma_sole_named_child();
                }
                bare_value_of(text, v)
            },
            None => None,
        }
    }
}

/// What a node of one of the value kinds lowers to.
pub open spec fn bare_value_of(text: Seq<char>, v: SyntaxNode) -> Option<ValueView>
    decreases v, 1int, 0int,
{
    match v.kind {
        NodeKind::StringValue => match text_of(text, v) {
            Some(t) => Some(ValueView::String(spec_trim_quotes(t))),
            None => None,
        },
        NodeKind::IntValue => match text_of(text, v) {
            Some(t) => match i32_value(t) {
                Some(i) => Some(ValueView::Int(i)),
                None => None,
            },
            None => None,
        },
        NodeKind::FloatValue => match text_of(text, v) {
            Some(t) => Some(ValueView::Float(t)),
            None => None,
        },
        NodeKind::BooleanValue => match text_of(text, v) {
            Some(t) => if t == "true"@ {
                Some(ValueView::Boolean(true))
            } else if t == "false"@ {
                Some(ValueView::Boolean(false))
            } else {
                None
            },
            None => None,
        },
        NodeKind::NullValue => Some(ValueView::Null),
        NodeKind::EnumValue => match text_of(text, v) {
            Some(t) => Some(ValueView::Enum(t)),
            None => None,
        },
        NodeKind::ListValue => match list_values_upto(text, v, v.children@.len() as int) {
            Some(values) => Some(ValueView::List(values)),
            None => None,
        },
        NodeKind::ObjectValue => match object_fields_upto(text, v, v.children@.len() as int) {
            Some(fields) => Some(ValueView::Object(fields)),
            None => None,
        },
        _ => None,
    }
}

/// The values among the first `upto` children of a list value. Where one
/// of them does not lower, the list does not lower.
pub open spec fn list_values_upto(text: Seq<char>, v: SyntaxNode, upto: int) -> Option<
    Seq<ValueView>,
>
    decreases v, 0int, upto,
{
    if upto <= 0 || upto > v.children@.len() {
        Some(Seq::empty())
    } else {
        match list_values_upto(text, v, upto - 1) {
            Some(prev) => {
                let c = v.children@[upto - 1];
                if c.is_relevant() && c.kind == NodeKind::Value {
                    match value_of(text, c) {
                        Some(x) => Some(prev.push(x)),
                        None => None,
                    }
                } else {
                    Some(prev)
                }
            },
            None => None,
        }
    }
}

/// The fields among the first `upto` children of an object value. Where
/// one of them lacks its name or a value that lowers, the object does not
/// lower.
pub open spec fn object_fields_upto(text: Seq<char>, v: SyntaxNode, upto: int) -> Option<
    Seq<(NameView, ValueView)>,
>
    decreases v, 0int, upto,
{
    if upto <= 0 || upto > v.children@.len() {
        Some(Seq::empty())
    } else {
        match object_fields_upto(text, v, upto - 1) {
            Some(prev) => {
                let c = v.children@[upto - 1];
                if c.is_relevant() && c.kind == NodeKind::ObjectField {
                    match (name_of(text, c), c.spec_child_of_kind(NodeKind::Value)) {
                        (Some(name), Some(value_node)) => {
                            proof {
                                c.lemma_child_of_kind(NodeKind::Value);
                            }
                            match value_of(text, value_node) {
                                Some(x) => Some(prev.push((name, x))),
                                None => None,
                            }
                        },
                        _ => None,
                    }
                } else {
                    Some(prev)
                }
            },
            None => None,
        }
    }
}

proof fn lemma_list_values_stay_lost(text: Seq<char>, v: SyntaxNode, at: int, upto: int)
    requires
        0 <= at <= upto <= v.children@.len(),
        list_values_upto(text, v, at) is None,
    ensures
        list_values_upto(text, v, upto) is None,
    decreases upto - at,
{
    if at < upto {
        lemma_list_values_stay_lost(text, v, at, upto - 1);
    }
}

proof fn lemma_object_fields_stay_lost(text: Seq<char>, v: SyntaxNode, at: int, upto: int)
    requires
        0 <= at <= upto <= v.children@.len(),
        object_fields_upto(text, v, at) is None,
    ensures
        object_fields_upto(text, v, upto) is None,
    decreases upto - at,
{
    if at < upto {
        lemma_object_fields_stay_lost(text, v, at, upto - 1);
    }
}

/// The default value that a definition gives, if it gives one that lowers.
pub open spec fn default_value_of(text: Seq<char>, node: SyntaxNode) -> Option<ValueView> {
    match node.spec_child_of_kind(NodeKind::DefaultValue) {
        Some(d) => match d.spec_sole_named_child() {
            Some(v) => value_of(text, v),
            None => None,
        },
        None => None,
    }
}

/// The diagnostic for a part of a body that does not lower: one, at the
/// place of the part.
pub open spec fn malformed(node: SyntaxNode) -> Seq<DiagnosticView> {
    seq![DiagnosticView { range: node.range, kind: DiagnosticKindView::Malformed }]
}

/// The diagnostic of a default value: where a definition gives a default
/// value that does not lower, one at the place of that value.
pub open spec fn default_value_diagnostics(text: Seq<char>, node: SyntaxNode) -> Seq<
    DiagnosticView,
> {
    match node.spec_child_of_kind(NodeKind::DefaultValue) {
        Some(d) => if default_value_of(text, node) is None {
            malformed(d)
        } else {
            Seq::empty()
        },
        None => Seq::empty(),
    }
}

/// What an `input_value_definition` lowers to as an argument. With a name
/// and a type that lowers it is an argument, and the diagnostics of its
/// type and of its default value are raised, in this order. Without, it is
/// dropped and one diagnostic says so.
pub open spec fn arg_of(scope: Scope, node: SyntaxNode) -> Lowering<Option<ArgView>> {
    match (name_of(scope.text, node), node.spec_child_of_kind(NodeKind::Type)) {
        (Some(name), Some(type_node)) => match type_of(scope, type_node) {
            Some(ty) => Lowering {
                value: Some(
                    ArgView {
                        range: node.range,
                        name,
                        ty,
                        default_value: default_value_of(scope.text, node),
                        directives: directives_of(scope.text, node),
                    },
                ),
                diagnostics: unresolved_in(ty) + default_value_diagnostics(scope.text, node),
            },
            None => Lowering { value: None, diagnostics: malformed(node) },
        },
        _ => Lowering { value: None, diagnostics: malformed(node) },
    }
}

/// What an `input_value_definition` lowers to as the field of an input object.
pub open spec fn input_field_of(scope: Scope, node: SyntaxNode) -> Lowering<Option<FieldView>> {
    match arg_of(scope, node).value {
        Some(arg) => Lowering {
            value: Some(
                FieldView {
                    range: arg.range,
                    name: arg.name,
                    ty: arg.ty,
                    directives: arg.directives,
                    default_value: arg.default_value,
                    args: Seq::empty(),
                },
            ),
            diagnostics: arg_of(scope, node).diagnostics,
        },
        None => Lowering { value: None, diagnostics: arg_of(scope, node).diagnostics },
    }
}

/// The arguments among the first `upto` children of an `arguments_definition`.
pub open spec fn args_upto(scope: Scope, node: SyntaxNode, upto: int) -> Lowering<Seq<ArgView>>
    decreases upto,
{
    if upto <= 0 {
        Lowering { value: Seq::empty(), diagnostics: Seq::empty() }
    } else {
        let prev = args_upto(scope, node, upto - 1);
        let c = node.children@[upto - 1];
        if c.is_relevant() && c.kind == NodeKind::InputValueDefinition {
            let arg = arg_of(scope, c);
            Lowering {
                value: match arg.value {
                    Some(a) => prev.value.push(a),
                    None => prev.value,
                },
                diagnostics: prev.diagnostics + arg.diagnostics,
            }
        } else {
            prev
        }
    }
}

/// The arguments that a field definition declares.
pub open spec fn args_of(scope: Scope, node: SyntaxNode) -> Lowering<Seq<ArgView>> {
    match node.spec_child_of_kind(NodeKind::ArgumentsDefinition) {
        Some(a) => args_upto(scope, a, a.children@.len() as int),
        None => Lowering { value: Seq::empty(), diagnostics: Seq::empty() },
    }
}

/// What a `field_definition` lowers to. The type is lowered first, so its
/// diagnostic is raised even where the field has no name. A field without
/// a name or without a type that lowers is dropped, and one diagnostic
/// says so.
pub open spec fn field_of(scope: Scope, node: SyntaxNode) -> Lowering<Option<FieldView>> {
    match node.spec_child_of_kind(NodeKind::Type) {
        Some(type_node) => match type_of(scope, type_node) {
            Some(ty) => match name_of(scope.text, node) {
                Some(name) => {
                    let args = args_of(scope, node);
                    Lowering {
                        value: Some(
                            FieldView {
                                range: node.range,
                                name,
                                ty,
                                directives: directives_of(scope.text, node),
                                default_value: None,
                                args: args.value,
                            },
                        ),
                        diagnostics: unresolved_in(ty) + args.diagnostics,
                    }
                },
                None => Lowering { value: None, diagnostics: unresolved_in(ty) + malformed(node) },
            },
            None => Lowering { value: None, diagnostics: malformed(node) },
        },
        None => Lowering { value: None, diagnostics: malformed(node) },
    }
}

/// The fields among the first `upto` children of a `fields_definition`.
pub open spec fn fields_upto(scope: Scope, node: SyntaxNode, upto: int) -> Lowering<
    Seq<FieldView>,
>
    decreases upto,
{
    if upto <= 0 {
        Lowering { value: Seq::empty(), diagnostics: Seq::empty() }
    } else {
        let prev = fields_upto(scope, node, upto - 1);
        let c = node.children@[upto - 1];
        if c.is_relevant() && c.kind == NodeKind::FieldDefinition {
            let field = field_of(scope, c);
            Lowering {
                value: match field.value {
                    Some(f) => prev.value.push(f),
                    None => prev.value,
                },
                diagnostics: prev.diagnostics + field.diagnostics,
            }
        } else {
            prev
        }
    }
}

/// The fields that an object or interface definition declares.
pub open spec fn fields_of(scope: Scope, node: SyntaxNode) -> Lowering<Seq<FieldView>> {
    match node.spec_child_of_kind(NodeKind::FieldsDefinition) {
        Some(f) => fields_upto(scope, f, f.children@.len() as int),
        None => Lowering { value: Seq::empty(), diagnostics: Seq::empty() },
    }
}

/// The fields among the first `upto` children of an `input_fields_definition`.
pub open spec fn input_fields_upto(scope: Scope, node: SyntaxNode, upto: int) -> Lowering<
    Seq<FieldView>,
>
    decreases upto,
{
    if upto <= 0 {
        Lowering { value: Seq::empty(), diagnostics: Seq::empty() }
    } else {
        let prev = input_fields_upto(scope, node, upto - 1);
        let c = node.children@[upto - 1];
        if c.is_relevant() && c.kind == NodeKind::InputValueDefinition {
            let field = input_field_of(scope, c);
            Lowering {
                value: match field.value {
                    Some(f) => prev.value.push(f),
                    None => prev.value,
                },
                diagnostics: prev.diagnostics + field.diagnostics,
            }
        } else {
            prev
        }
    }
}

/// The fields that an input object definition declares.
pub open spec fn input_fields_of(scope: Scope, node: SyntaxNode) -> Lowering<Seq<FieldView>> {
    match node.spec_child_of_kind(NodeKind::InputFieldsDefinition) {
        Some(f) => input_fields_upto(scope, f, f.children@.len() as int),
        None => Lowering { value: Seq::empty(), diagnostics: Seq::empty() },
    }
}

/// What an `enum_value_definition` lowers to.
pub open spec fn variant_of(text: Seq<char>, node: SyntaxNode) -> Option<VariantView> {
    match node.spec_child_of_kind(NodeKind::EnumValue) {
        Some(v) => match name_of(text, v) {
            Some(name) => Some(VariantView { name }),
            None => None,
        },
        None => None,
    }
}

/// The enum values among the first `upto` children of an
/// `enum_values_definition`. One that does not lower is dropped, and one
/// diagnostic says so.
pub open spec fn variants_upto(text: Seq<char>, node: SyntaxNode, upto: int) -> Lowering<
    Seq<VariantView>,
>
    decreases upto,
{
    if upto <= 0 {
        Lowering { value: Seq::empty(), diagnostics: Seq::empty() }
    } else {
        let prev = variants_upto(text, node, upto - 1);
        let c = node.children@[upto - 1];
        if c.is_relevant() && c.kind == NodeKind::EnumValueDefinition {
            match variant_of(text, c) {
                Some(v) => Lowering { value: prev.value.push(v), diagnostics: prev.diagnostics },
                None => Lowering {
                    value: prev.value,
                    diagnostics: prev.diagnostics + malformed(c),
                },
            }
        } else {
            prev
        }
    }
}

/// The values that an enum definition declares.
pub open spec fn variants_of(text: Seq<char>, node: SyntaxNode) -> Lowering<Seq<VariantView>> {
    match node.spec_child_of_kind(NodeKind::EnumValuesDefinition) {
        Some(v) => variants_upto(text, v, v.children@.len() as int),
        None => Lowering { value: Seq::empty(), diagnostics: Seq::empty() },
    }
}

/// The diagnostics of a member type: that of its name where it lowers,
/// and where it does not, one that says so.
pub open spec fn member_diagnostics(scope: Scope, node: SyntaxNode) -> Seq<DiagnosticView> {
    match named_type_of(scope, node) {
        Some(t) => unresolved_in(t),
        None => malformed(node),
    }
}

/// The member types among the first `upto` children of a `union_member_types`.
pub open spec fn members_upto(scope: Scope, node: SyntaxNode, upto: int) -> Lowering<
    Seq<TypeView>,
>
    decreases upto,
{
    if upto <= 0 {
        Lowering { value: Seq::empty(), diagnostics: Seq::empty() }
    } else {
        let prev = members_upto(scope, node, upto - 1);
        let c = node.children@[upto - 1];
        if c.is_relevant() && c.kind == NodeKind::NamedType {
            let ty = named_type_of(scope, c);
            Lowering {
                value: match ty {
                    Some(t) => prev.value.push(t),
                    None => prev.value,
                },
                diagnostics: prev.diagnostics + member_diagnostics(scope, c),
            }
        } else {
            prev
        }
    }
}

/// The member types that a union definition declares.
pub open spec fn members_of(scope: Scope, node: SyntaxNode) -> Lowering<Seq<TypeView>> {
    match node.spec_child_of_kind(NodeKind::UnionMemberTypes) {
        Some(m) => members_upto(scope, m, m.children@.len() as int),
        None => Lowering { value: Seq::empty(), diagnostics: Seq::empty() },
    }
}

/// The body of a definition node, by the kind of the node. Objects and
/// object extensions have fields, as have interfaces and input objects;
/// unions have member types and enums have values. The body of any other
/// node is not lowered.
pub open spec fn body_of(scope: Scope, node: SyntaxNode) -> Lowering<ItemBodyKindView> {
    match node.kind {
        NodeKind::ObjectTypeDefinition | NodeKind::ObjectTypeExtension => Lowering {
            value: ItemBodyKindView::Object(fields_of(scope, node).value),
            diagnostics: fields_of(scope, node).diagnostics,
        },
        NodeKind::InterfaceTypeDefinition => Lowering {
            value: ItemBodyKindView::Interface(fields_of(scope, node).value),
            diagnostics: fields_of(scope, node).diagnostics,
        },
        NodeKind::InputObjectTypeDefinition => Lowering {
            value: ItemBodyKindView::InputObject(input_fields_of(scope, node).value),
            diagnostics: input_fields_of(scope, node).diagnostics,
        },
        NodeKind::UnionTypeDefinition => Lowering {
            value: ItemBodyKindView::Union(members_of(scope, node).value),
            diagnostics: members_of(scope, node).diagnostics,
        },
        NodeKind::EnumTypeDefinition => Lowering {
            value: ItemBodyKindView::Enum(variants_of(scope.text, node).value),
            diagnostics: variants_of(scope.text, node).diagnostics,
        },
        _ => Lowering { value: ItemBodyKindView::Todo, diagnostics: Seq::empty() },
    }
}

fn node_text<'a>(text: &'a str, node: &SyntaxNode) -> (r: Option<&'a str>)
    ensures
        match r {
            Some(t) => text_of(text@, *node) == Some(t@),
            None => text_of(text@, *node) is None,
        },
{
    slice(text, node.range.start_byte, node.range.end_byte)
}

/// Lowers a `value` node.
pub fn lower_value(text: &str, node: &SyntaxNode) -> (r: Option<Value>)
    ensures
        value_view_opt(r) == value_of(text@, *node),
    decreases node, 2int,
{
    if !matches!(node.kind, NodeKind::Value) {
        return None;
    }
    match node.sole_named_child() {
        Some(v) => {
            proof {
                node.lemma_sole_named_child();
            }
            lower_bare_value(text, v)
        },
        None => None,
    }
}

fn lower_bare_value(text: &str, v: &SyntaxNode) -> (r: Option<Value>)
    ensures
        value_view_opt(r) == bare_value_of(text@, *v),
    decreases v, 1int,
{
    match v.kind {
        NodeKind::StringValue => match node_text(text, v) {
            Some(t) => Some(Value::String(trim_quotes(t).to_owned())),
            None => None,
        },
        NodeKind::IntValue => match node_text(text, v) {
            Some(t) => match parse_i32(t) {
                Some(i) => Some(Value::Int(i)),
                None => None,
            },
            None => None,
        },
        NodeKind::FloatValue => match node_text(text, v) {
            Some(t) => Some(Value::Float(t.to_owned())),
            None => None,
        },
        NodeKind::BooleanValue => match node_text(text, v) {
            Some(t) => if str_eq(t, "true") {
                Some(Value::Boolean(true))
            } else if str_eq(t, "false") {
                Some(Value::Boolean(false))
            } else {
                None
            },
            None => None,
        },
        NodeKind::NullValue => Some(Value::Null),
        NodeKind::EnumValue => match node_text(text, v) {
            Some(t) => Some(Value::Enum(t.to_owned())),
            None => None,
        },
        NodeKind::ListValue => {
            let mut out: Vec<Value> = Vec::new();
            let mut i: usize = 0;
            proof {
                assert(value_views(out@) =~= Seq::empty());
            }
            while i < v.children.len()
                invariant
                    i <= v.children@.len(),
                    v.kind == NodeKind::ListValue,
                    list_values_upto(text@, *v, i as int) == Some(value_views(out@)),
                decreases v.children@.len() - i,
            {
                let child = &v.children[i];
                if child.named && !child.extra && matches!(child.kind, NodeKind::Value) {
                    match lower_value(text, child) {
                        Some(x) => {
                            let ghost before = out@;
                            let ghost xv = x@;
                            out.push(x);
                            proof {
                                assert(value_views(out@) =~= value_views(before).push(xv));
                            }
                        },
                        None => {
                            proof {
                                assert(list_values_upto(text@, *v, i + 1) is None);
                                lemma_list_values_stay_lost(
                                    text@,
                                    *v,
                                    i + 1,
                                    v.children@.len() as int,
                                );
                            }
                            return None;
                        },
                    }
                }
                i += 1;
            }
            let value = Value::List(out);
            proof {
                reveal_with_fuel(value_view, 2);
                assert(value@ is List);
                let items = value@->List_0;
                assert(items.len() == out@.len());
                assert forall|k: int| 0 <= k < items.len() implies items[k] == out@[k]@ by {}
                assert(items =~= value_views(out@));
            }
            Some(value)
        },
        NodeKind::ObjectValue => {
            let mut out: Vec<(Name, Value)> = Vec::new();
            let mut i: usize = 0;
            proof {
                assert(object_field_views(out@) =~= Seq::empty());
            }
            while i < v.children.len()
                invariant
                    i <= v.children@.len(),
                    v.kind == NodeKind::ObjectValue,
                    object_fields_upto(text@, *v, i as int) == Some(object_field_views(out@)),
                decreases v.children@.len() - i,
            {
                let child = &v.children[i];
                if child.named && !child.extra && matches!(child.kind, NodeKind::ObjectField) {
                    match lower_object_field(text, child) {
                        Some(field) => {
                            let ghost before = out@;
                            let ghost fv = (field.0@, field.1@);
                            out.push(field);
                            proof {
                                assert(object_field_views(out@) =~= object_field_views(before).push(
                                    fv,
                                ));
                            }
                        },
                        None => {
                            proof {
                                assert(object_fields_upto(text@, *v, i + 1) is None);
                                lemma_object_fields_stay_lost(
                                    text@,
                                    *v,
                                    i + 1,
                                    v.children@.len() as int,
                                );
                            }
                            return None;
                        },
                    }
                }
                i += 1;
            }
            let value = Value::Object(out);
            proof {
                reveal_with_fuel(value_view, 2);
                assert(value@ is Object);
                let fields = value@->Object_0;
                assert(fields.len() == out@.len());
                assert forall|k: int| 0 <= k < fields.len() implies fields[k] == (
                    out@[k].0@,
                    out@[k].1@,
                ) by {}
                assert(fields =~= object_field_views(out@));
            }
            Some(value)
        },
        _ => None,
    }
}

fn lower_object_field(text: &str, node: &SyntaxNode) -> (r: Option<(Name, Value)>)
    ensures
        match r {
            Some(field) => match (
                name_of(text@, *node),
                node.spec_child_of_kind(NodeKind::Value),
            ) {
                (Some(name), Some(value_node)) => name == field.0@ && value_of(text@, value_node)
                    == Some(field.1@),
                _ => false,
            },
            None => match (name_of(text@, *node), node.spec_child_of_kind(NodeKind::Value)) {
                (Some(_), Some(value_node)) => value_of(text@, value_node) is None,
                _ => true,
            },
        },
    decreases node, 0int,
{
    let name = match lower_name_of(text, node) {
        Some(name) => name,
        None => {
            return None;
        },
    };
    let value_node = match node.child_of_kind(NodeKind::Value) {
        Some(n) => n,
        None => {
            return None;
        },
    };
    proof {
        node.lemma_child_of_kind(NodeKind::Value);
    }
    match lower_value(text, value_node) {
        Some(value) => Some((name, value)),
        None => None,
    }
}

/// Lowers the default value of a definition.
pub fn lower_default_value_of(text: &str, node: &SyntaxNode) -> (r: Option<Value>)
    ensures
        value_view_opt(r) == default_value_of(text@, *node),
{
    match node.child_of_kind(NodeKind::DefaultValue) {
        Some(d) => match d.sole_named_child() {
            Some(v) => lower_value(text, v),
            None => None,
        },
        None => None,
    }
}

fn lower_enum_variant(text: &str, node: &SyntaxNode) -> (r: Option<Variant>)
    ensures
        match r {
            Some(v) => variant_of(text@, *node) == Some(v@),
            None => variant_of(text@, *node) is None,
        },
{
    match node.child_of_kind(NodeKind::EnumValue) {
        Some(v) => match lower_name_of(text, v) {
            Some(name) => Some(Variant { name }),
            None => None,
        },
        None => None,
    }
}

/// The state of lowering one body: the database to resolve names in, the
/// file and its text, and the diagnostics collected so far.
pub struct BodyCtxt<'db> {
    db: &'db Database,
    text: &'db str,
    file: FileId,
    diagnostics: Vec<Diagnostic>,
}

impl<'db> BodyCtxt<'db> {
    pub closed spec fn scope(&self) -> Scope {
        Scope { source: self.db@, file: self.file, text: self.text@ }
    }

    /// The diagnostics collected so far.
    pub closed spec fn diagnostics(&self) -> Seq<DiagnosticView> {
        diagnostic_views(self.diagnostics@)
    }

    pub closed spec fn wf(&self) -> bool {
        self.db.wf()
    }

    /// This context is `before` with the given diagnostics added.
    pub open spec fn follows(&self, before: &BodyCtxt<'db>, added: Seq<DiagnosticView>) -> bool {
        &&& self.wf()
        &&& self.scope() == before.scope()
        &&& self.diagnostics() == before.diagnostics() + added
    }

    /// A context for the bodies of a file that has data.
    pub fn new(db: &'db Database, file: FileId) -> (r: Option<BodyCtxt<'db>>)
        requires
            db.wf(),
        ensures
            match r {
                Some(ctx) => db@.files.contains_key(file) && ctx.wf() && ctx.scope() == (Scope {
                    source: db@,
                    file,
                    text: db@.files[file].text@,
                }) && ctx.diagnostics().len() == 0,
                None => !db@.files.contains_key(file),
            },
    {
        match db.file_data(file) {
            Some(data) => Some(
                BodyCtxt { db, text: data.text.as_str(), file, diagnostics: Vec::new() },
            ),
            None => None,
        }
    }

    /// Notes that a part of the body does not lower.
    fn raise_malformed(&mut self, node: &SyntaxNode)
        requires
            old(self).wf(),
        ensures
            final(self).follows(old(self), malformed(*node)),
    {
        let ghost before = self.diagnostics@;
        let d = Diagnostic::new(node.range, DiagnosticKind::Malformed);
        self.diagnostics.push(d);
        proof {
            assert(diagnostic_views(self.diagnostics@) =~= diagnostic_views(before) + seq![d@]);
        }
    }

    fn lower_enum_variants(&mut self, node: &SyntaxNode) -> (r: Vec<Variant>)
        requires
            old(self).wf(),
        ensures
            variant_views(r@) == variants_upto(
                old(self).scope().text,
                *node,
                node.children@.len() as int,
            ).value,
            final(self).follows(
                old(self),
                variants_upto(
                    old(self).scope().text,
                    *node,
                    node.children@.len() as int,
                ).diagnostics,
            ),
    {
        let mut out: Vec<Variant> = Vec::new();
        let mut i: usize = 0;
        let ghost scope = self.scope();
        let ghost start = self.diagnostics();
        proof {
            assert(variant_views(out@) =~= Seq::empty());
            assert(start + Seq::empty() =~= start);
        }
        while i < node.children.len()
            invariant
                i <= node.children@.len(),
                self.wf(),
                self.scope() == scope,
                variant_views(out@) == variants_upto(scope.text, *node, i as int).value,
                self.diagnostics() == start + variants_upto(
                    scope.text,
                    *node,
                    i as int,
                ).diagnostics,
            decreases node.children@.len() - i,
        {
            let child = &node.children[i];
            if child.named && !child.extra && matches!(child.kind, NodeKind::EnumValueDefinition) {
                let ghost prev = variants_upto(scope.text, *node, i as int).diagnostics;
                match lower_enum_variant(self.text, child) {
                    Some(v) => {
                        let ghost before = out@;
                        out.push(v);
                        proof {
                            assert(variant_views(out@) =~= variant_views(before).push(v@));
                        }
                    },
                    None => {
                        self.raise_malformed(child);
                        proof {
                            assert((start + prev) + malformed(*child) =~= start + (prev
                                + malformed(*child)));
                        }
                    },
                }
            }
            i += 1;
        }
        out
    }

    fn lower_enum_typedef(&mut self, node: &SyntaxNode) -> (r: EnumDefinitionBody)
        requires
            old(self).wf(),
        ensures
            variant_views(r.variants@) == variants_of(old(self).scope().text, *node).value,
            final(self).follows(
                old(self),
                variants_of(old(self).scope().text, *node).diagnostics,
            ),
    {
        let variants = match node.child_of_kind(NodeKind::EnumValuesDefinition) {
            Some(v) => self.lower_enum_variants(v),
            None => {
                let out: Vec<Variant> = Vec::new();
                proof {
                    assert(variant_views(out@) =~= Seq::empty());
                    assert(self.diagnostics() + Seq::empty() =~= self.diagnostics());
                }
                out
            },
        };
        EnumDefinitionBody { variants }
    }

    fn lower_named_type(&mut self, node: &SyntaxNode) -> (r: Option<Ty>)
        requires
            old(self).wf(),
        ensures
            match r {
                Some(ty) => named_type_of(old(self).scope(), *node) == Some(ty@),
                None => named_type_of(old(self).scope(), *node) is None,
            },
            final(self).follows(
                old(self),
                unresolved_in_opt(named_type_of(old(self).scope(), *node)),
            ),
    {
        let name = match lower_name(self.text, node) {
            Some(name) => name,
            None => {
                proof {
                    assert(self.diagnostics() + Seq::empty() =~= self.diagnostics());
                }
                return None;
            },
        };
        let res = self.db.resolve_item(self.file, &name);
        let kind = match res {
            Res::Unresolved => {
                let ghost before = self.diagnostics@;
                let d = Diagnostic::new(node.range, DiagnosticKind::UnresolvedType(name.clone()));
                self.diagnostics.push(d);
                proof {
                    assert(diagnostic_views(self.diagnostics@) =~= diagnostic_views(before) + seq![
                        d@,
                    ]);
                }
                TyKind::Unresolved(name)
            },
            Res::Item(items) => {
                proof {
                    assert(self.diagnostics() + Seq::empty() =~= self.diagnostics());
                }
                TyKind::Named(name, Res::Item(items))
            },
        };
        Some(Arc::new(Type { range: node.range, kind }))
    }

    fn lower_list_type(&mut self, node: &SyntaxNode) -> (r: Option<Ty>)
        requires
            old(self).wf(),
        ensures
            match r {
                Some(ty) => list_type_of(old(self).scope(), *node) == Some(ty@),
                None => list_type_of(old(self).scope(), *node) is None,
            },
            final(self).follows(
                old(self),
                unresolved_in_opt(list_type_of(old(self).scope(), *node)),
            ),
        decreases node, 0int,
    {
        match node.sole_named_child() {
            Some(inner) => {
                proof {
                    node.lemma_sole_named_child();
                }
                match self.lower_type(inner) {
                    Some(t) => Some(Arc::new(Type { range: node.range, kind: TyKind::List(t) })),
                    None => None,
                }
            },
            None => {
                proof {
                    assert(self.diagnostics() + Seq::empty() =~= self.diagnostics());
                }
                None
            },
        }
    }

    /// Lowers a type node and resolves the name at its core.
    pub fn lower_type(&mut self, node: &SyntaxNode) -> (r: Option<Ty>)
        requires
            old(self).wf(),
        ensures
            match r {
                Some(ty) => type_of(old(self).scope(), *node) == Some(ty@),
                None => type_of(old(self).scope(), *node) is None,
            },
            final(self).follows(old(self), unresolved_in_opt(type_of(old(self).scope(), *node))),
        decreases node, 2int,
    {
        match node.kind {
            NodeKind::Type => match node.sole_named_child() {
                Some(ty) => {
                    proof {
                        node.lemma_sole_named_child();
                    }
                    self.lower_bare_type(ty)
                },
                None => {
                    proof {
                        assert(self.diagnostics() + Seq::empty() =~= self.diagnostics());
                    }
                    None
                },
            },
            _ => self.lower_bare_type(node),
        }
    }

    fn lower_bare_type(&mut self, ty: &SyntaxNode) -> (r: Option<Ty>)
        requires
            old(self).wf(),
        ensures
            match r {
                Some(t) => bare_type_of(old(self).scope(), *ty) == Some(t@),
                None => bare_type_of(old(self).scope(), *ty) is None,
            },
            final(self).follows(
                old(self),
                unresolved_in_opt(bare_type_of(old(self).scope(), *ty)),
            ),
        decreases ty, 1int,
    {
        match ty.kind {
            NodeKind::NamedType => self.lower_named_type(ty),
            NodeKind::ListType => self.lower_list_type(ty),
            NodeKind::NonNullType => match ty.sole_named_child() {
                Some(inner) => {
                    proof {
                        ty.lemma_sole_named_child();
                    }
                    let lowered = match inner.kind {
                        NodeKind::NamedType => self.lower_named_type(inner),
                        NodeKind::ListType => self.lower_list_type(inner),
                        _ => {
                            proof {
                                assert(self.diagnostics() + Seq::empty() =~= self.diagnostics());
                            }
                            None
                        },
                    };
                    match lowered {
                        Some(t) => Some(
                            Arc::new(Type { range: ty.range, kind: TyKind::NonNull(t) }),
                        ),
                        None => None,
                    }
                },
                None => {
                    proof {
                        assert(self.diagnostics() + Seq::empty() =~= self.diagnostics());
                    }
                    None
                },
            },
            _ => {
                proof {
                    assert(self.diagnostics() + Seq::empty() =~= self.diagnostics());
                }
                None
            },
        }
    }

    fn lower_arg(&mut self, node: &SyntaxNode) -> (r: Option<Arg>)
        requires
            old(self).wf(),
        ensures
            match r {
                Some(arg) => arg_of(old(self).scope(), *node).value == Some(arg@),
                None => arg_of(old(self).scope(), *node).value is None,
            },
            final(self).follows(old(self), arg_of(old(self).scope(), *node).diagnostics),
    {
        let name = match lower_name_of(self.text, node) {
            Some(name) => name,
            None => {
                self.raise_malformed(node);
                return None;
            },
        };
        let type_node = match node.child_of_kind(NodeKind::Type) {
            Some(n) => n,
            None => {
                self.raise_malformed(node);
                return None;
            },
        };
        let ty = match self.lower_type(type_node) {
            Some(ty) => ty,
            None => {
                proof {
                    assert(old(self).diagnostics() + Seq::<DiagnosticView>::empty()
                        =~= old(self).diagnostics());
                }
                self.raise_malformed(node);
                return None;
            },
        };
        let ghost start = old(self).diagnostics();
        let default_value = lower_default_value_of(self.text, node);
        if default_value.is_none() {
            match node.child_of_kind(NodeKind::DefaultValue) {
                Some(d) => {
                    let ghost before = self.diagnostics@;
                    let malformed = Diagnostic::new(d.range, DiagnosticKind::Malformed);
                    self.diagnostics.push(malformed);
                    proof {
                        assert(diagnostic_views(self.diagnostics@) =~= diagnostic_views(before)
                            + seq![malformed@]);
                    }
                },
                None => {},
            }
        }
        proof {
            let added = default_value_diagnostics(self.text@, *node);
            assert((start + unresolved_in(ty@)) + added =~= start + (unresolved_in(ty@) + added));
            assert((start + unresolved_in(ty@)) + Seq::<DiagnosticView>::empty() =~= start
                + unresolved_in(ty@));
        }
        let directives = lower_directives_of(self.text, node);
        Some(Arg { range: node.range, name, ty, default_value, directives })
    }

    fn lower_input_field(&mut self, node: &SyntaxNode) -> (r: Option<Field>)
        requires
            old(self).wf(),
        ensures
            match r {
                Some(field) => input_field_of(old(self).scope(), *node).value == Some(field@),
                None => input_field_of(old(self).scope(), *node).value is None,
            },
            final(self).follows(old(self), input_field_of(old(self).scope(), *node).diagnostics),
    {
        match self.lower_arg(node) {
            Some(arg) => {
                let args: Vec<Arg> = Vec::new();
                proof {
                    assert(arg_views(args@) =~= Seq::empty());
                }
                Some(
                    Field {
                        range: arg.range,
                        name: arg.name,
                        ty: arg.ty,
                        directives: arg.directives,
                        default_value: arg.default_value,
                        args,
                    },
                )
            },
            None => None,
        }
    }

    fn lower_args(&mut self, node: &SyntaxNode) -> (r: Vec<Arg>)
        requires
            old(self).wf(),
        ensures
            arg_views(r@) == args_upto(old(self).scope(), *node, node.children@.len() as int).value,
            final(self).follows(
                old(self),
                args_upto(old(self).scope(), *node, node.children@.len() as int).diagnostics,
            ),
    {
        let mut out: Vec<Arg> = Vec::new();
        let mut i: usize = 0;
        let ghost scope = self.scope();
        let ghost start = self.diagnostics();
        proof {
            assert(arg_views(out@) =~= Seq::empty());
            assert(start + Seq::empty() =~= start);
        }
        while i < node.children.len()
            invariant
                i <= node.children@.len(),
                self.wf(),
                self.scope() == scope,
                arg_views(out@) == args_upto(scope, *node, i as int).value,
                self.diagnostics() == start + args_upto(scope, *node, i as int).diagnostics,
            decreases node.children@.len() - i,
        {
            let child = &node.children[i];
            if child.named && !child.extra && matches!(child.kind, NodeKind::InputValueDefinition) {
                let ghost prev = args_upto(scope, *node, i as int).diagnostics;
                let ghost added = arg_of(scope, *child).diagnostics;
                match self.lower_arg(child) {
                    Some(arg) => {
                        let ghost before = out@;
                        out.push(arg);
                        proof {
                            assert(arg_views(out@) =~= arg_views(before).push(arg@));
                        }
                    },
                    None => {},
                }
                proof {
                    assert((start + prev) + added =~= start + (prev + added));
                }
            }
            i += 1;
        }
        out
    }

    fn lower_args_of(&mut self, node: &SyntaxNode) -> (r: Vec<Arg>)
        requires
            old(self).wf(),
        ensures
            arg_views(r@) == args_of(old(self).scope(), *node).value,
            final(self).follows(old(self), args_of(old(self).scope(), *node).diagnostics),
    {
        match node.child_of_kind(NodeKind::ArgumentsDefinition) {
            Some(a) => self.lower_args(a),
            None => {
                let out: Vec<Arg> = Vec::new();
                proof {
                    assert(arg_views(out@) =~= Seq::empty());
                    assert(self.diagnostics() + Seq::empty() =~= self.diagnostics());
                }
                out
            },
        }
    }

    fn lower_field(&mut self, node: &SyntaxNode) -> (r: Option<Field>)
        requires
            old(self).wf(),
        ensures
            match r {
                Some(field) => field_of(old(self).scope(), *node).value == Some(field@),
                None => field_of(old(self).scope(), *node).value is None,
            },
            final(self).follows(old(self), field_of(old(self).scope(), *node).diagnostics),
    {
        let ghost start = self.diagnostics();
        let type_node = match node.child_of_kind(NodeKind::Type) {
            Some(n) => n,
            None => {
                self.raise_malformed(node);
                return None;
            },
        };
        let ty = match self.lower_type(type_node) {
            Some(ty) => ty,
            None => {
                proof {
                    assert(start + Seq::<DiagnosticView>::empty() =~= start);
                }
                self.raise_malformed(node);
                return None;
            },
        };
        let name = match lower_name_of(self.text, node) {
            Some(name) => name,
            None => {
                self.raise_malformed(node);
                proof {
                    assert((start + unresolved_in(ty@)) + malformed(*node) =~= start + (
                    unresolved_in(ty@) + malformed(*node)));
                }
                return None;
            },
        };
        let directives = lower_directives_of(self.text, node);
        let ghost scope = self.scope();
        let args = self.lower_args_of(node);
        proof {
            assert((start + unresolved_in(ty@)) + args_of(scope, *node).diagnostics =~= start + (
            unresolved_in(ty@) + args_of(scope, *node).diagnostics));
        }
        Some(Field { range: node.range, name, ty, directives, args, default_value: None })
    }

    fn lower_fields(&mut self, node: &SyntaxNode) -> (r: Vec<Field>)
        requires
            old(self).wf(),
        ensures
            field_views(r@) == fields_upto(
                old(self).scope(),
                *node,
                node.children@.len() as int,
            ).value,
            final(self).follows(
                old(self),
                fields_upto(old(self).scope(), *node, node.children@.len() as int).diagnostics,
            ),
    {
        let mut out: Vec<Field> = Vec::new();
        let mut i: usize = 0;
        let ghost scope = self.scope();
        let ghost start = self.diagnostics();
        proof {
            assert(field_views(out@) =~= Seq::empty());
            assert(start + Seq::empty() =~= start);
        }
        while i < node.children.len()
            invariant
                i <= node.children@.len(),
                self.wf(),
                self.scope() == scope,
                field_views(out@) == fields_upto(scope, *node, i as int).value,
                self.diagnostics() == start + fields_upto(scope, *node, i as int).diagnostics,
            decreases node.children@.len() - i,
        {
            let child = &node.children[i];
            if child.named && !child.extra && matches!(child.kind, NodeKind::FieldDefinition) {
                let ghost prev = fields_upto(scope, *node, i as int).diagnostics;
                let ghost added = field_of(scope, *child).diagnostics;
                match self.lower_field(child) {
                    Some(field) => {
                        let ghost before = out@;
                        out.push(field);
                        proof {
                            assert(field_views(out@) =~= field_views(before).push(field@));
                        }
                    },
                    None => {},
                }
                proof {
                    assert((start + prev) + added =~= start + (prev + added));
                }
            }
            i += 1;
        }
        out
    }

    fn lower_fields_of(&mut self, node: &SyntaxNode) -> (r: Vec<Field>)
        requires
            old(self).wf(),
        ensures
            field_views(r@) == fields_of(old(self).scope(), *node).value,
            final(self).follows(old(self), fields_of(old(self).scope(), *node).diagnostics),
    {
        match node.child_of_kind(NodeKind::FieldsDefinition) {
            Some(f) => self.lower_fields(f),
            None => {
                let out: Vec<Field> = Vec::new();
                proof {
                    assert(field_views(out@) =~= Seq::empty());
                    assert(self.diagnostics() + Seq::empty() =~= self.diagnostics());
                }
                out
            },
        }
    }

    fn lower_input_fields(&mut self, node: &SyntaxNode) -> (r: Vec<Field>)
        requires
            old(self).wf(),
        ensures
            field_views(r@) == input_fields_upto(
                old(self).scope(),
                *node,
                node.children@.len() as int,
            ).value,
            final(self).follows(
                old(self),
                input_fields_upto(
                    old(self).scope(),
                    *node,
                    node.children@.len() as int,
                ).diagnostics,
            ),
    {
        let mut out: Vec<Field> = Vec::new();
        let mut i: usize = 0;
        let ghost scope = self.scope();
        let ghost start = self.diagnostics();
        proof {
            assert(field_views(out@) =~= Seq::empty());
            assert(start + Seq::empty() =~= start);
        }
        while i < node.children.len()
            invariant
                i <= node.children@.len(),
                self.wf(),
                self.scope() == scope,
                field_views(out@) == input_fields_upto(scope, *node, i as int).value,
                self.diagnostics() == start + input_fields_upto(scope, *node, i as int).diagnostics,
            decreases node.children@.len() - i,
        {
            let child = &node.children[i];
            if child.named && !child.extra && matches!(child.kind, NodeKind::InputValueDefinition) {
                let ghost prev = input_fields_upto(scope, *node, i as int).diagnostics;
                let ghost added = input_field_of(scope, *child).diagnostics;
                match self.lower_input_field(child) {
                    Some(field) => {
                        let ghost before = out@;
                        out.push(field);
                        proof {
                            assert(field_views(out@) =~= field_views(before).push(field@));
                        }
                    },
                    None => {},
                }
                proof {
                    assert((start + prev) + added =~= start + (prev + added));
                }
            }
            i += 1;
        }
        out
    }

    fn lower_union_member_types(&mut self, node: &SyntaxNode) -> (r: Vec<Ty>)
        requires
            old(self).wf(),
        ensures
            type_views(r@) == members_upto(
                old(self).scope(),
                *node,
                node.children@.len() as int,
            ).value,
            final(self).follows(
                old(self),
                members_upto(old(self).scope(), *node, node.children@.len() as int).diagnostics,
            ),
    {
        let mut out: Vec<Ty> = Vec::new();
        let mut i: usize = 0;
        let ghost scope = self.scope();
        let ghost start = self.diagnostics();
        proof {
            assert(type_views(out@) =~= Seq::empty());
            assert(start + Seq::empty() =~= start);
        }
        while i < node.children.len()
            invariant
                i <= node.children@.len(),
                self.wf(),
                self.scope() == scope,
                type_views(out@) == members_upto(scope, *node, i as int).value,
                self.diagnostics() == start + members_upto(scope, *node, i as int).diagnostics,
            decreases node.children@.len() - i,
        {
            let child = &node.children[i];
            if child.named && !child.extra && matches!(child.kind, NodeKind::NamedType) {
                let ghost prev = members_upto(scope, *node, i as int).diagnostics;
                let ghost added = member_diagnostics(scope, *child);
                match self.lower_named_type(child) {
                    Some(ty) => {
                        let ghost before = out@;
                        out.push(ty);
                        proof {
                            assert(type_views(out@) =~= type_views(before).push(ty@));
                        }
                    },
                    None => {
                        proof {
                            assert((start + prev) + Seq::<DiagnosticView>::empty() =~= start
                                + prev);
                        }
                        self.raise_malformed(child);
                    },
                }
                proof {
                    assert((start + prev) + added =~= start + (prev + added));
                }
            }
            i += 1;
        }
        out
    }

    fn lower_object_typedef(&mut self, node: &SyntaxNode) -> (r: ObjectTypeDefinitionBody)
        requires
            old(self).wf(),
        ensures
            field_views(r.fields@) == fields_of(old(self).scope(), *node).value,
            final(self).follows(old(self), fields_of(old(self).scope(), *node).diagnostics),
    {
        ObjectTypeDefinitionBody { fields: self.lower_fields_of(node) }
    }

    fn lower_interface_typedef(&mut self, node: &SyntaxNode) -> (r: InterfaceDefinitionBody)
        requires
            old(self).wf(),
        ensures
            field_views(r.fields@) == fields_of(old(self).scope(), *node).value,
            final(self).follows(old(self), fields_of(old(self).scope(), *node).diagnostics),
    {
        InterfaceDefinitionBody { fields: self.lower_fields_of(node) }
    }

    fn lower_input_object_typedef(&mut self, node: &SyntaxNode) -> (r: InputTypeDefinitionBody)
        requires
            old(self).wf(),
        ensures
            field_views(r.fields@) == input_fields_of(old(self).scope(), *node).value,
            final(self).follows(old(self), input_fields_of(old(self).scope(), *node).diagnostics),
    {
        let fields = match node.child_of_kind(NodeKind::InputFieldsDefinition) {
            Some(f) => self.lower_input_fields(f),
            None => {
                let out: Vec<Field> = Vec::new();
                proof {
                    assert(field_views(out@) =~= Seq::empty());
                    assert(self.diagnostics() + Seq::empty() =~= self.diagnostics());
                }
                out
            },
        };
        InputTypeDefinitionBody { fields }
    }

    fn lower_union_typedef(&mut self, node: &SyntaxNode) -> (r: UnionDefinitionBody)
        requires
            old(self).wf(),
        ensures
            type_views(r.types@) == members_of(old(self).scope(), *node).value,
            final(self).follows(old(self), members_of(old(self).scope(), *node).diagnostics),
    {
        let types = match node.child_of_kind(NodeKind::UnionMemberTypes) {
            Some(m) => self.lower_union_member_types(m),
            None => {
                let out: Vec<Ty> = Vec::new();
                proof {
                    assert(type_views(out@) =~= Seq::empty());
                    assert(self.diagnostics() + Seq::empty() =~= self.diagnostics());
                }
                out
            },
        };
        UnionDefinitionBody { types }
    }

    /// Lowers the body of a definition node and hands it back with every
    /// diagnostic collected, those from before included.
    pub fn lower_typedef(self, node: &SyntaxNode) -> (body: ItemBody)
        requires
            self.wf(),
        ensures
            body@ == (ItemBodyView {
                diagnostics: self.diagnostics() + body_of(self.scope(), *node).diagnostics,
                kind: body_of(self.scope(), *node).value,
            }),
    {
        let mut ctx = self;
        let kind = match node.kind {
            NodeKind::ObjectTypeDefinition | NodeKind::ObjectTypeExtension => ItemBodyKind::Object(
                ctx.lower_object_typedef(node),
            ),
            NodeKind::InterfaceTypeDefinition => ItemBodyKind::Interface(
                ctx.lower_interface_typedef(node),
            ),
            NodeKind::InputObjectTypeDefinition => ItemBodyKind::InputObject(
                ctx.lower_input_object_typedef(node),
            ),
            NodeKind::UnionTypeDefinition => ItemBodyKind::Union(ctx.lower_union_typedef(node)),
            NodeKind::EnumTypeDefinition => ItemBodyKind::Enum(ctx.lower_enum_typedef(node)),
            _ => {
                proof {
                    assert(ctx.diagnostics() + Seq::empty() =~= ctx.diagnostics());
                }
                ItemBodyKind::Todo
            },
        };
        ItemBody { diagnostics: ctx.diagnostics, kind }
    }
}

} // verus!
