//! Lowering a file's syntax tree into its items.
//!
//! Lowering is tolerant: a root-level node that does not form a complete
//! definition contributes nothing, and its siblings are lowered all the same.

use std::sync::Arc;
use vstd::prelude::*;
use la_arena::Arena;
use crate::ir::{
    Directive, DirectiveDefinition, DirectiveLocation, DirectiveLocations, DirectiveView, Item,
    ItemKind, ItemView, Items, ItemsView, Name, NameView, TypeDefinition, TypeDefinitionKind,
    TypeDefinitionView,
};
use crate::store::{
    directive_alloc, directive_arena_new, directive_arena_seq, item_alloc,
    item_arena_new, item_arena_seq, typedef_alloc, typedef_arena_new, typedef_arena_seq,
    };
use crate::syntax::{FieldLabel, NodeKind, SyntaxNode, SyntaxTree};
use crate::text::{has_sigil, slice, spec_slice, spec_with_sigil, starts_with_sigil, with_sigil};

verus! {

/// The views of a sequence of directives.
pub open spec fn directive_views(s: Seq<Directive>) -> Seq<DirectiveView> {
    s.map_values(|d: Directive| d@)
}

/// The views of a sequence of names.
pub open spec fn name_views(s: Seq<Name>) -> Seq<NameView> {
    s.map_values(|n: Name| n@)
}

/// The name that a node spells: the text it covers, if that is a non-empty
/// slice of the source, with the node's range.
pub open spec fn name_from(text: Seq<char>, node: SyntaxNode) -> Option<NameView> {
    match spec_slice(text, node.range.start_byte as int, node.range.end_byte as int) {
        Some(t) => if t.len() > 0 {
            Some(NameView { text: t, range: Some(node.range) })
        } else {
            None
        },
        None => None,
    }
}

/// The name of a definition: what its name node spells.
pub open spec fn name_of(text: Seq<char>, node: SyntaxNode) -> Option<NameView> {
    match node.spec_name_node() {
        Some(n) => name_from(text, n),
        None => None,
    }
}

/// The name of a type: the name of its definition, which must not begin
/// with the sigil of directives.
pub open spec fn type_name_of(text: Seq<char>, node: SyntaxNode) -> Option<NameView> {
    match name_of(text, node) {
        Some(name) => if has_sigil(name.text) {
            None
        } else {
            Some(name)
        },
        None => None,
    }
}

/// The name of a directive: the name under its node with the sigil in
/// front, whether or not the name node takes the sigil in. So a directive
/// never bears the name of a type.
pub open spec fn directive_name_of(text: Seq<char>, node: SyntaxNode) -> Option<NameView> {
    match name_of(text, node) {
        Some(name) => Some(NameView { text: spec_with_sigil(name.text), range: name.range }),
        None => None,
    }
}

/// What one `directive` node lowers to.
pub open spec fn directive_of(text: Seq<char>, node: SyntaxNode) -> Option<DirectiveView> {
    match directive_name_of(text, node) {
        Some(name) => Some(DirectiveView { range: node.range, name }),
        None => None,
    }
}

/// The directives among the first `upto` children of a `directives` node.
pub open spec fn directives_upto(text: Seq<char>, node: SyntaxNode, upto: int) -> Seq<
    DirectiveView,
>
    decreases upto,
{
    if upto <= 0 {
        Seq::empty()
    } else {
        let prev = directives_upto(text, node, upto - 1);
        let c = node.children@[upto - 1];
        if c.is_relevant() && c.kind == NodeKind::Directive {
            match directive_of(text, c) {
                Some(d) => prev.push(d),
                None => prev,
            }
        } else {
            prev
        }
    }
}

/// The directives attached to a definition, in source order.
pub open spec fn directives_of(text: Seq<char>, node: SyntaxNode) -> Seq<DirectiveView> {
    match node.spec_child_of_kind(NodeKind::Directives) {
        Some(d) => directives_upto(text, d, d.children@.len() as int),
        None => Seq::empty(),
    }
}

/// Whether one of the names has the given text.
pub open spec fn holds_name(names: Seq<NameView>, text: Seq<char>) -> bool {
    exists|k: int| 0 <= k < names.len() && (#[trigger] names[k]).text == text
}

/// Whether no two of the names have the same text.
pub open spec fn distinct_names(names: Seq<NameView>) -> bool {
    forall|a: int, b: int|
        0 <= a < b < names.len() ==> (#[trigger] names[a]).text != (#[trigger] names[b]).text
}

/// The interface names among the first `upto` children of an
/// `implements_interfaces` node, in source order, each name once: a name
/// that is written again is passed over.
pub open spec fn implementations_upto(text: Seq<char>, node: SyntaxNode, upto: int) -> Seq<
    NameView,
>
    decreases upto,
{
    if upto <= 0 {
        Seq::empty()
    } else {
        let prev = implementations_upto(text, node, upto - 1);
        let c = node.children@[upto - 1];
        if c.is_relevant() && c.kind == NodeKind::NamedType {
            match name_from(text, c) {
                Some(n) => if holds_name(prev, n.text) {
                    prev
                } else {
                    prev.push(n)
                },
                None => prev,
            }
        } else {
            prev
        }
    }
}

/// The interfaces of a definition form a set: no name is listed twice.
pub proof fn lemma_implementations_distinct(text: Seq<char>, node: SyntaxNode, upto: int)
    ensures
        distinct_names(implementations_upto(text, node, upto)),
    decreases upto,
{
    if upto > 0 {
        lemma_implementations_distinct(text, node, upto - 1);
        let prev = implementations_upto(text, node, upto - 1);
        let cur = implementations_upto(text, node, upto);
        assert forall|a: int, b: int| 0 <= a < b < cur.len() implies (#[trigger] cur[a]).text != (
        #[trigger] cur[b]).text by {
            if cur.len() == prev.len() + 1 {
                if b == prev.len() {
                    assert(cur[a] == prev[a]);
                    assert(!holds_name(prev, cur[b].text));
                } else {
                    assert(cur[a] == prev[a] && cur[b] == prev[b]);
                }
            }
        }
    }
}

/// The interfaces that a definition says it implements, if it says so at all.
pub open spec fn implementations_of(text: Seq<char>, node: SyntaxNode) -> Option<Seq<NameView>> {
    match node.spec_child_of_kind(NodeKind::ImplementsInterfaces) {
        Some(n) => Some(implementations_upto(text, n, n.children@.len() as int)),
        None => None,
    }
}

/// The location that a location token stands for.
pub open spec fn location_of(kind: NodeKind) -> Option<DirectiveLocation> {
    match kind {
        NodeKind::ArgumentDefinitionLocation => Some(DirectiveLocation::ArgumentDefinition),
        NodeKind::EnumLocation => Some(DirectiveLocation::Enum),
        NodeKind::EnumValueLocation => Some(DirectiveLocation::EnumValue),
        NodeKind::FieldDefinitionLocation => Some(DirectiveLocation::FieldDefinition),
        NodeKind::InputFieldDefinitionLocation => Some(DirectiveLocation::InputFieldDefinition),
        NodeKind::InputObjectLocation => Some(DirectiveLocation::InputObject),
        NodeKind::InterfaceLocation => Some(DirectiveLocation::Interface),
        NodeKind::ObjectLocation => Some(DirectiveLocation::Object),
        NodeKind::ScalarLocation => Some(DirectiveLocation::Scalar),
        NodeKind::SchemaLocation => Some(DirectiveLocation::Schema),
        NodeKind::UnionLocation => Some(DirectiveLocation::Union),
        _ => None,
    }
}

/// The locations named by the first `upto` children of a
/// `directive_locations` node. A location node without a token adds nothing;
/// a token that names no known location spoils the whole set.
pub open spec fn locations_upto(node: SyntaxNode, upto: int) -> Option<DirectiveLocations>
    decreases upto,
{
    if upto <= 0 {
        Some(DirectiveLocations { bits: 0 })
    } else {
        match locations_upto(node, upto - 1) {
            None => None,
            Some(acc) => {
                let c = node.children@[upto - 1];
                if c.is_relevant() && c.kind == NodeKind::DirectiveLocation {
                    match c.spec_child_by_label(FieldLabel::Location) {
                        None => Some(acc),
                        Some(token) => match location_of(token.kind) {
                            Some(l) => Some(DirectiveLocations { bits: acc.bits | l.spec_bit() }),
                            None => None,
                        },
                    }
                } else {
                    Some(acc)
                }
            },
        }
    }
}

/// The kind of type that a definition node defines.
pub open spec fn definition_kind(kind: NodeKind) -> Option<TypeDefinitionKind> {
    match kind {
        NodeKind::ObjectTypeDefinition => Some(TypeDefinitionKind::Object),
        NodeKind::InterfaceTypeDefinition => Some(TypeDefinitionKind::Interface),
        NodeKind::ScalarTypeDefinition => Some(TypeDefinitionKind::Scalar),
        NodeKind::EnumTypeDefinition => Some(TypeDefinitionKind::Enum),
        NodeKind::UnionTypeDefinition => Some(TypeDefinitionKind::Union),
        NodeKind::InputObjectTypeDefinition => Some(TypeDefinitionKind::Input),
        _ => None,
    }
}

/// The kind of type that an extension node extends.
pub open spec fn extension_kind(kind: NodeKind) -> Option<TypeDefinitionKind> {
    match kind {
        NodeKind::ObjectTypeExtension => Some(TypeDefinitionKind::Object),
        NodeKind::InterfaceTypeExtension => Some(TypeDefinitionKind::Interface),
        NodeKind::ScalarTypeExtension => Some(TypeDefinitionKind::Scalar),
        NodeKind::EnumTypeExtension => Some(TypeDefinitionKind::Enum),
        NodeKind::UnionTypeExtension => Some(TypeDefinitionKind::Union),
        NodeKind::InputObjectTypeExtension => Some(TypeDefinitionKind::Input),
        _ => None,
    }
}

/// What an item defines.
pub enum Definition {
    Type(TypeDefinitionView),
    Directive(DirectiveDefinition),
}

/// One lowered item before it has been given its index.
pub struct Lowered {
    pub range: crate::syntax::Range,
    pub name: NameView,
    pub def: Definition,
}

impl Lowered {
    /// The item, once `typedefs` type definitions and `directives` directive
    /// definitions precede it.
    pub open spec fn item(self, typedefs: nat, directives: nat) -> ItemView {
        ItemView {
            range: self.range,
            name: self.name,
            kind: match self.def {
                Definition::Type(_) => ItemKind::TypeDefinition(typedefs as u32),
                Definition::Directive(_) => ItemKind::DirectiveDefinition(directives as u32),
            },
        }
    }
}

/// The header of a type definition or extension node of the given kind.
pub open spec fn typedef_of(
    text: Seq<char>,
    def: SyntaxNode,
    node: SyntaxNode,
    kind: TypeDefinitionKind,
    is_ext: bool,
) -> Option<Lowered> {
    match type_name_of(text, node) {
        Some(name) => Some(
            Lowered {
                range: def.range,
                name,
                def: Definition::Type(
                    TypeDefinitionView {
                        kind,
                        is_ext,
                        directives: directives_of(text, node),
                        implementations: implementations_of(text, node),
                    },
                ),
            },
        ),
        None => None,
    }
}

/// What a root-level node defines, if it is a complete definition: an `item`
/// whose sole named child is a type definition, a type extension or a
/// directive definition with a name. A directive definition also needs its
/// locations, all of them known.
pub open spec fn item_of(text: Seq<char>, node: SyntaxNode) -> Option<Lowered> {
    if node.kind != NodeKind::Item {
        None
    } else {
        match node.spec_sole_named_child() {
            None => None,
            Some(def) => match def.kind {
                NodeKind::TypeDefinition => match def.spec_sole_named_child() {
                    None => None,
                    Some(typedef) => match definition_kind(typedef.kind) {
                        Some(kind) => typedef_of(text, def, typedef, kind, false),
                        None => None,
                    },
                },
                NodeKind::TypeExtension => match def.spec_sole_named_child() {
                    None => None,
                    Some(ext) => match extension_kind(ext.kind) {
                        Some(kind) => typedef_of(text, def, ext, kind, true),
                        None => None,
                    },
                },
                NodeKind::DirectiveDefinition => match directive_name_of(text, def) {
                    None => None,
                    Some(name) => match def.spec_child_of_kind(NodeKind::DirectiveLocations) {
                        None => None,
                        Some(locs) => match locations_upto(locs, locs.children@.len() as int) {
                            None => None,
                            Some(locations) => Some(
                                Lowered {
                                    range: def.range,
                                    name,
                                    def: Definition::Directive(DirectiveDefinition { locations }),
                                },
                            ),
                        },
                    },
                },
                _ => None,
            },
        }
    }
}

impl ItemsView {
    /// The definitions alone, without the items that point to them.
    pub open spec fn definitions(self) -> ItemsView {
        ItemsView { items: Seq::empty(), typedefs: self.typedefs, directives: self.directives }
    }

    /// The items with one more, which takes the next index of its kind.
    pub open spec fn with(self, l: Lowered) -> ItemsView {
        ItemsView {
            items: self.items.push(l.item(self.typedefs.len(), self.directives.len())),
            typedefs: match l.def {
                Definition::Type(t) => self.typedefs.push(t),
                Definition::Directive(_) => self.typedefs,
            },
            directives: match l.def {
                Definition::Type(_) => self.directives,
                Definition::Directive(d) => self.directives.push(d),
            },
        }
    }
}

/// The items that the first `upto` children of the root add to `base`.
pub open spec fn lower_upto(text: Seq<char>, root: SyntaxNode, base: ItemsView, upto: int) -> ItemsView
    decreases upto,
{
    if upto <= 0 {
        base
    } else {
        let prev = lower_upto(text, root, base, upto - 1);
        let c = root.children@[upto - 1];
        if c.is_relevant() {
            match item_of(text, c) {
                Some(l) => prev.with(l),
                None => prev,
            }
        } else {
            prev
        }
    }
}

/// The items of a file: what its root-level nodes define, in source order.
pub open spec fn items_of(text: Seq<char>, root: SyntaxNode) -> ItemsView {
    lower_upto(text, root, ItemsView::empty(), root.children@.len() as int)
}

/// Lowering adds at most one item, and at most one definition, per child.
pub proof fn lemma_lower_upto_len(text: Seq<char>, root: SyntaxNode, base: ItemsView, upto: int)
    requires
        0 <= upto,
    ensures
        lower_upto(text, root, base, upto).items.len() <= base.items.len() + upto,
        lower_upto(text, root, base, upto).typedefs.len() <= base.typedefs.len() + upto,
        lower_upto(text, root, base, upto).directives.len() <= base.directives.len() + upto,
    decreases upto,
{
    if upto > 0 {
        lemma_lower_upto_len(text, root, base, upto - 1);
    }
}

impl ItemsView {
    /// How many of the first `upto` items are type definitions.
    pub open spec fn typedefs_before(self, upto: int) -> nat
        decreases upto,
    {
        if upto <= 0 {
            0
        } else {
            self.typedefs_before(upto - 1) + match self.items[upto - 1].kind {
                ItemKind::TypeDefinition(_) => 1nat,
                ItemKind::DirectiveDefinition(_) => 0nat,
            }
        }
    }

    /// How many of the first `upto` items are directive definitions.
    pub open spec fn directives_before(self, upto: int) -> nat
        decreases upto,
    {
        if upto <= 0 {
            0
        } else {
            self.directives_before(upto - 1) + match self.items[upto - 1].kind {
                ItemKind::TypeDefinition(_) => 0nat,
                ItemKind::DirectiveDefinition(_) => 1nat,
            }
        }
    }

    /// Indices are dense and follow the source: each item points to the
    /// definition whose index is the number of items of its kind before it,
    /// and each arena holds exactly the definitions that items point to.
    pub open spec fn dense(self) -> bool {
        &&& forall|i: int|
            0 <= i < self.items.len() ==> match (#[trigger] self.items[i]).kind {
                ItemKind::TypeDefinition(k) => k == self.typedefs_before(i),
                ItemKind::DirectiveDefinition(k) => k == self.directives_before(i),
            }
        &&& self.typedefs.len() == self.typedefs_before(self.items.len() as int)
        &&& self.directives.len() == self.directives_before(self.items.len() as int)
    }

    /// Every name has a text and the place it was read from, and the
    /// names that begin with the sigil are those of the directives.
    pub open spec fn named(self) -> bool {
        forall|i: int|
            0 <= i < self.items.len() ==> (#[trigger] self.items[i]).name.text.len() > 0
                && self.items[i].name.range is Some && (has_sigil(self.items[i].name.text)
                <==> self.items[i].kind is DirectiveDefinition)
    }
}

proof fn lemma_counts_of_prefix(a: ItemsView, b: ItemsView, upto: int)
    requires
        0 <= upto <= a.items.len(),
        upto <= b.items.len(),
        forall|i: int| 0 <= i < upto ==> a.items[i] == b.items[i],
    ensures
        a.typedefs_before(upto) == b.typedefs_before(upto),
        a.directives_before(upto) == b.directives_before(upto),
    decreases upto,
{
    if upto > 0 {
        lemma_counts_of_prefix(a, b, upto - 1);
    }
}

proof fn lemma_with_keeps_dense(items: ItemsView, l: Lowered)
    requires
        items.dense(),
        items.named(),
        l.name.text.len() > 0,
        l.name.range is Some,
        has_sigil(l.name.text) <==> l.def is Directive,
        items.typedefs.len() <= u32::MAX,
        items.directives.len() <= u32::MAX,
    ensures
        items.with(l).dense(),
        items.with(l).named(),
{
    let next = items.with(l);
    let n = items.items.len() as int;
    assert forall|i: int| 0 <= i < next.items.len() implies match (#[trigger] next.items[i]).kind {
        ItemKind::TypeDefinition(k) => k == next.typedefs_before(i),
        ItemKind::DirectiveDefinition(k) => k == next.directives_before(i),
    } by {
        lemma_counts_of_prefix(items, next, if i < n { i } else { n });
        if i < n {
            assert(next.items[i] == items.items[i]);
        }
    }
    lemma_counts_of_prefix(items, next, n);
    assert(next.items[n] == l.item(items.typedefs.len(), items.directives.len()));
    assert forall|i: int| 0 <= i < next.items.len() implies (#[trigger] next.items[i]).name.text.len()
        > 0 && next.items[i].name.range is Some && (has_sigil(next.items[i].name.text)
        <==> next.items[i].kind is DirectiveDefinition) by {
        if i < n {
            assert(next.items[i] == items.items[i]);
        }
    }
}

/// Lowering keeps indices dense and names whole: where that holds of the
/// base, it holds of the base with the items of the first `upto` children.
pub proof fn lemma_lower_upto_dense(text: Seq<char>, root: SyntaxNode, base: ItemsView, upto: int)
    requires
        0 <= upto,
        base.dense(),
        base.named(),
        base.typedefs.len() + upto <= u32::MAX,
        base.directives.len() + upto <= u32::MAX,
    ensures
        lower_upto(text, root, base, upto).dense(),
        lower_upto(text, root, base, upto).named(),
    decreases upto,
{
    if upto > 0 {
        lemma_lower_upto_dense(text, root, base, upto - 1);
        lemma_lower_upto_len(text, root, base, upto - 1);
        let prev = lower_upto(text, root, base, upto - 1);
        let c = root.children@[upto - 1];
        if c.is_relevant() {
            match item_of(text, c) {
                Some(l) => {
                    lemma_with_keeps_dense(prev, l);
                },
                None => {},
            }
        }
    }
}

/// A type and a directive of one file never bear the same name: two items
/// of the same name are both types or both directives.
pub proof fn lemma_types_and_directives_share_no_name(
    text: Seq<char>,
    root: SyntaxNode,
    i: int,
    j: int,
)
    requires
        root.children@.len() <= u32::MAX,
        0 <= i < items_of(text, root).items.len(),
        0 <= j < items_of(text, root).items.len(),
        items_of(text, root).items[i].name.text == items_of(text, root).items[j].name.text,
    ensures
        items_of(text, root).items[i].kind is DirectiveDefinition <==> items_of(
            text,
            root,
        ).items[j].kind is DirectiveDefinition,
{
    lemma_items_of_dense(text, root);
}

/// The items of a file are numbered densely in source order, point into
/// their arenas, and bear names with a text and a place; the names of
/// directives, and only they, begin with the sigil.
pub proof fn lemma_items_of_dense(text: Seq<char>, root: SyntaxNode)
    requires
        root.children@.len() <= u32::MAX,
    ensures
        items_of(text, root).dense(),
        items_of(text, root).named(),
        items_of(text, root).in_bounds(),
{
    let n = root.children@.len() as int;
    lemma_lower_upto_dense(text, root, ItemsView::empty(), n);
    lemma_lower_upto_len(text, root, ItemsView::empty(), n);
    let items = items_of(text, root);
    assert forall|i: int| 0 <= i < items.items.len() implies match (#[trigger] items.items[i]).kind {
        ItemKind::TypeDefinition(k) => k < items.typedefs.len(),
        ItemKind::DirectiveDefinition(k) => k < items.directives.len(),
    } by {
        lemma_counts_grow(items, i + 1, items.items.len() as int);
    }
}

proof fn lemma_counts_grow(items: ItemsView, at: int, upto: int)
    requires
        0 <= at <= upto,
    ensures
        items.typedefs_before(at) <= items.typedefs_before(upto),
        items.directives_before(at) <= items.directives_before(upto),
    decreases upto - at,
{
    if at < upto {
        lemma_counts_grow(items, at, upto - 1);
    }
}

/// The name that a node spells.
pub fn lower_name(text: &str, node: &SyntaxNode) -> (r: Option<Name>)
    ensures
        match r {
            Some(name) => name_from(text@, *node) == Some(name@),
            None => name_from(text@, *node) is None,
        },
{
    match slice(text, node.range.start_byte, node.range.end_byte) {
        Some(t) => if t.is_empty() {
            None
        } else {
            Some(Name::ranged(t, node.range))
        },
        None => None,
    }
}

/// The name of a definition.
pub fn lower_name_of(text: &str, node: &SyntaxNode) -> (r: Option<Name>)
    ensures
        match r {
            Some(name) => name_of(text@, *node) == Some(name@),
            None => name_of(text@, *node) is None,
        },
{
    match node.name_node() {
        Some(n) => lower_name(text, n),
        None => None,
    }
}

/// The name of a type.
pub fn lower_type_name_of(text: &str, node: &SyntaxNode) -> (r: Option<Name>)
    ensures
        match r {
            Some(name) => type_name_of(text@, *node) == Some(name@),
            None => type_name_of(text@, *node) is None,
        },
{
    match lower_name_of(text, node) {
        Some(name) => if starts_with_sigil(name.as_str()) {
            None
        } else {
            Some(name)
        },
        None => None,
    }
}

/// The name of a directive, with its sigil.
pub fn lower_directive_name_of(text: &str, node: &SyntaxNode) -> (r: Option<Name>)
    ensures
        match r {
            Some(name) => directive_name_of(text@, *node) == Some(name@),
            None => directive_name_of(text@, *node) is None,
        },
{
    match lower_name_of(text, node) {
        Some(name) => Some(Name { text: with_sigil(name.as_str()), range: name.range }),
        None => None,
    }
}

/// Lowers one `directive` node.
pub fn lower_directive(text: &str, node: &SyntaxNode) -> (r: Option<Directive>)
    ensures
        match r {
            Some(d) => directive_of(text@, *node) == Some(d@),
            None => directive_of(text@, *node) is None,
        },
{
    match lower_directive_name_of(text, node) {
        Some(name) => Some(Directive { range: node.range, name }),
        None => None,
    }
}

/// Lowers the directives under a `directives` node.
pub fn lower_directives(text: &str, node: &SyntaxNode) -> (r: Vec<Directive>)
    ensures
        directive_views(r@) == directives_upto(text@, *node, node.children@.len() as int),
{
    let mut out: Vec<Directive> = Vec::new();
    let mut i: usize = 0;
    proof {
        assert(directive_views(out@) =~= Seq::empty());
    }
    while i < node.children.len()
        invariant
            i <= node.children@.len(),
            directive_views(out@) == directives_upto(text@, *node, i as int),
        decreases node.children@.len() - i,
    {
        let child = &node.children[i];
        if child.named && !child.extra && matches!(child.kind, NodeKind::Directive) {
            match lower_directive(text, child) {
                Some(d) => {
                    let ghost before = out@;
                    out.push(d);
                    proof {
                        assert(directive_views(out@) =~= directive_views(before).push(d@));
                    }
                },
                None => {},
            }
        }
        i += 1;
    }
    out
}

/// Lowers the directives attached to a definition.
pub fn lower_directives_of(text: &str, node: &SyntaxNode) -> (r: Vec<Directive>)
    ensures
        directive_views(r@) == directives_of(text@, *node),
{
    match node.child_of_kind(NodeKind::Directives) {
        Some(d) => lower_directives(text, d),
        None => {
            let out: Vec<Directive> = Vec::new();
            proof {
                assert(directive_views(out@) =~= Seq::empty());
            }
            out
        },
    }
}

fn lower_location(kind: NodeKind) -> (r: Option<DirectiveLocation>)
    ensures
        r == location_of(kind),
{
    match kind {
        NodeKind::ArgumentDefinitionLocation => Some(DirectiveLocation::ArgumentDefinition),
        NodeKind::EnumLocation => Some(DirectiveLocation::Enum),
        NodeKind::EnumValueLocation => Some(DirectiveLocation::EnumValue),
        NodeKind::FieldDefinitionLocation => Some(DirectiveLocation::FieldDefinition),
        NodeKind::InputFieldDefinitionLocation => Some(DirectiveLocation::InputFieldDefinition),
        NodeKind::InputObjectLocation => Some(DirectiveLocation::InputObject),
        NodeKind::InterfaceLocation => Some(DirectiveLocation::Interface),
        NodeKind::ObjectLocation => Some(DirectiveLocation::Object),
        NodeKind::ScalarLocation => Some(DirectiveLocation::Scalar),
        NodeKind::SchemaLocation => Some(DirectiveLocation::Schema),
        NodeKind::UnionLocation => Some(DirectiveLocation::Union),
        _ => None,
    }
}

/// The set of locations that a `directive_locations` node lists.
pub fn lower_locations(node: &SyntaxNode) -> (r: Option<DirectiveLocations>)
    ensures
        r == locations_upto(*node, node.children@.len() as int),
{
    let mut acc = DirectiveLocations::empty();
    let mut i: usize = 0;
    while i < node.children.len()
        invariant
            i <= node.children@.len(),
            locations_upto(*node, i as int) == Some(acc),
        decreases node.children@.len() - i,
    {
        let child = &node.children[i];
        if child.named && !child.extra && matches!(child.kind, NodeKind::DirectiveLocation) {
            match child.child_by_label(FieldLabel::Location) {
                Some(token) => match lower_location(token.kind) {
                    Some(l) => {
                        acc = acc.insert(l);
                    },
                    None => {
                        proof {
                            lemma_locations_stay_spoiled(
                                *node,
                                i as int + 1,
                                node.children@.len() as int,
                            );
                        }
                        return None;
                    },
                },
                None => {},
            }
        }
        i += 1;
    }
    Some(acc)
}

proof fn lemma_locations_stay_spoiled(node: SyntaxNode, at: int, upto: int)
    requires
        0 <= at <= upto,
        locations_upto(node, at) is None,
    ensures
        locations_upto(node, upto) is None,
    decreases upto - at,
{
    if at < upto {
        lemma_locations_stay_spoiled(node, at, upto - 1);
    }
}

fn lower_definition_kind(kind: NodeKind) -> (r: Option<TypeDefinitionKind>)
    ensures
        r == definition_kind(kind),
{
    match kind {
        NodeKind::ObjectTypeDefinition => Some(TypeDefinitionKind::Object),
        NodeKind::InterfaceTypeDefinition => Some(TypeDefinitionKind::Interface),
        NodeKind::ScalarTypeDefinition => Some(TypeDefinitionKind::Scalar),
        NodeKind::EnumTypeDefinition => Some(TypeDefinitionKind::Enum),
        NodeKind::UnionTypeDefinition => Some(TypeDefinitionKind::Union),
        NodeKind::InputObjectTypeDefinition => Some(TypeDefinitionKind::Input),
        _ => None,
    }
}

fn lower_extension_kind(kind: NodeKind) -> (r: Option<TypeDefinitionKind>)
    ensures
        r == extension_kind(kind),
{
    match kind {
        NodeKind::ObjectTypeExtension => Some(TypeDefinitionKind::Object),
        NodeKind::InterfaceTypeExtension => Some(TypeDefinitionKind::Interface),
        NodeKind::ScalarTypeExtension => Some(TypeDefinitionKind::Scalar),
        NodeKind::EnumTypeExtension => Some(TypeDefinitionKind::Enum),
        NodeKind::UnionTypeExtension => Some(TypeDefinitionKind::Union),
        NodeKind::InputObjectTypeExtension => Some(TypeDefinitionKind::Input),
        _ => None,
    }
}

/// Whether one of the names has the text of the given name.
pub fn holds(names: &Vec<Name>, name: &Name) -> (b: bool)
    ensures
        b == holds_name(name_views(names@), name@.text),
{
    let mut k: usize = 0;
    while k < names.len()
        invariant
            k <= names@.len(),
            forall|j: int| 0 <= j < k ==> (#[trigger] name_views(names@)[j]).text != name@.text,
        decreases names@.len() - k,
    {
        if names[k].same(name) {
            proof {
                assert(name_views(names@)[k as int].text == name@.text);
            }
            return true;
        }
        k += 1;
    }
    false
}

/// The state of lowering one file's items: its text and the definitions
/// allocated so far.
pub struct ItemCtxt {
    text: String,
    typedefs: Arena<TypeDefinition>,
    directives: Arena<DirectiveDefinition>,
}

impl ItemCtxt {
    pub closed spec fn text(self) -> Seq<char> {
        self.text@
    }

    /// The type definitions allocated so far.
    pub closed spec fn typedefs(self) -> Seq<TypeDefinitionView> {
        typedef_arena_seq(self.typedefs).map_values(|t: TypeDefinition| t@)
    }

    /// The directive definitions allocated so far.
    pub closed spec fn directives(self) -> Seq<DirectiveDefinition> {
        directive_arena_seq(self.directives)
    }

    /// The items lowered so far, none yet, with the definitions allocated.
    pub open spec fn base(self) -> ItemsView {
        ItemsView { items: Seq::empty(), typedefs: self.typedefs(), directives: self.directives() }
    }

    pub fn new(text: &str) -> (ctx: ItemCtxt)
        ensures
            ctx.text() == text@,
            ctx.typedefs().len() == 0,
            ctx.directives().len() == 0,
    {
        ItemCtxt {
            text: text.to_owned(),
            typedefs: typedef_arena_new(),
            directives: directive_arena_new(),
        }
    }

    /// The interfaces that a definition says it implements.
    pub fn try_lower_implementations_of(&self, node: &SyntaxNode) -> (r: Option<Vec<Name>>)
        ensures
            match r {
                Some(names) => implementations_of(self.text(), *node) == Some(name_views(names@)),
                None => implementations_of(self.text(), *node) is None,
            },
    {
        let implementations = match node.child_of_kind(NodeKind::ImplementsInterfaces) {
            Some(n) => n,
            None => {
                return None;
            },
        };
        let mut out: Vec<Name> = Vec::new();
        let mut i: usize = 0;
        proof {
            assert(name_views(out@) =~= Seq::empty());
        }
        while i < implementations.children.len()
            invariant
                i <= implementations.children@.len(),
                name_views(out@) == implementations_upto(self.text(), *implementations, i as int),
            decreases implementations.children@.len() - i,
        {
            let child = &implementations.children[i];
            if child.named && !child.extra && matches!(child.kind, NodeKind::NamedType) {
                match lower_name(self.text.as_str(), child) {
                    Some(name) => {
                        if !holds(&out, &name) {
                            let ghost before = out@;
                            out.push(name);
                            proof {
                                assert(name_views(out@) =~= name_views(before).push(name@));
                            }
                        }
                    },
                    None => {},
                }
            }
            i += 1;
        }
        Some(out)
    }

    fn lower_typedef_header(
        &mut self,
        def: &SyntaxNode,
        node: &SyntaxNode,
        kind: TypeDefinitionKind,
        is_ext: bool,
    ) -> (r: Option<Item>)
        requires
            old(self).typedefs().len() <= u32::MAX,
        ensures
            final(self).text() == old(self).text(),
            final(self).directives() == old(self).directives(),
            match typedef_of(old(self).text(), *def, *node, kind, is_ext) {
                Some(l) => r is Some && r.unwrap()@ == l.item(
                    old(self).typedefs().len(),
                    old(self).directives().len(),
                ) && final(self).base() == old(self).base().with(l).definitions(),
                None => r is None && final(self).typedefs() == old(self).typedefs(),
            },
    {
        let name = match lower_type_name_of(self.text.as_str(), node) {
            Some(name) => name,
            None => {
                return None;
            },
        };
        let directives = lower_directives_of(self.text.as_str(), node);
        let implementations = self.try_lower_implementations_of(node);
        let typedef = TypeDefinition { kind, is_ext, directives, implementations };
        proof {
            let l = typedef_of(self.text(), *def, *node, kind, is_ext).unwrap();
            assert(typedef@.directives == directive_views(typedef.directives@));
            assert(typedef@.implementations == match typedef.implementations {
                Some(names) => Some(name_views(names@)),
                None => None,
            });
            assert(Definition::Type(typedef@) == l.def);
        }
        let ghost before = typedef_arena_seq(self.typedefs);
        let idx = typedef_alloc(&mut self.typedefs, typedef);
        proof {
            assert(typedef_arena_seq(self.typedefs).map_values(|t: TypeDefinition| t@)
                =~= before.map_values(|t: TypeDefinition| t@).push(typedef@));
        }
        Some(Item { range: def.range, name, kind: ItemKind::TypeDefinition(idx) })
    }

    /// Lowers one root-level node. A complete definition yields its item and
    /// is allocated in the arena of its kind; anything else yields nothing
    /// and leaves the arenas as they are.
    pub fn lower_item(&mut self, node: &SyntaxNode) -> (r: Option<Item>)
        requires
            old(self).typedefs().len() <= u32::MAX,
            old(self).directives().len() <= u32::MAX,
        ensures
            final(self).text() == old(self).text(),
            match item_of(old(self).text(), *node) {
                Some(l) => r is Some && r.unwrap()@ == l.item(
                    old(self).typedefs().len(),
                    old(self).directives().len(),
                ) && final(self).base() == old(self).base().with(l).definitions(),
                None => r is None && final(self).base() == old(self).base(),
            },
    {
        if !matches!(node.kind, NodeKind::Item) {
            return None;
        }
        let def = match node.sole_named_child() {
            Some(def) => def,
            None => {
                return None;
            },
        };
        match def.kind {
            NodeKind::TypeDefinition => {
                let typedef = match def.sole_named_child() {
                    Some(n) => n,
                    None => {
                        return None;
                    },
                };
                match lower_definition_kind(typedef.kind) {
                    Some(kind) => self.lower_typedef_header(def, typedef, kind, false),
                    None => None,
                }
            },
            NodeKind::TypeExtension => {
                let ext = match def.sole_named_child() {
                    Some(n) => n,
                    None => {
                        return None;
                    },
                };
                match lower_extension_kind(ext.kind) {
                    Some(kind) => self.lower_typedef_header(def, ext, kind, true),
                    None => None,
                }
            },
            NodeKind::DirectiveDefinition => {
                let name = match lower_directive_name_of(self.text.as_str(), def) {
                    Some(name) => name,
                    None => {
                        return None;
                    },
                };
                let locations_node = match def.child_of_kind(NodeKind::DirectiveLocations) {
                    Some(n) => n,
                    None => {
                        return None;
                    },
                };
                let locations = match lower_locations(locations_node) {
                    Some(l) => l,
                    None => {
                        return None;
                    },
                };
                let idx = directive_alloc(&mut self.directives, DirectiveDefinition { locations });
                Some(Item { range: def.range, name, kind: ItemKind::DirectiveDefinition(idx) })
            },
            _ => None,
        }
    }

    /// Lowers every root-level node of the tree, in source order.
    pub fn lower(self, tree: &SyntaxTree) -> (items: Arc<Items>)
        requires
            self.typedefs().len() + tree.root.children@.len() <= u32::MAX,
            self.directives().len() + tree.root.children@.len() <= u32::MAX,
        ensures
            items@ == lower_upto(
                self.text(),
                tree.root,
                self.base(),
                tree.root.children@.len() as int,
            ),
    {
        let mut ctx = self;
        let root = &tree.root;
        let mut items = item_arena_new();
        let mut i: usize = 0;
        let ghost text = self.text();
        let ghost base = self.base();
        proof {
            assert(item_arena_seq(items).map_values(|i: Item| i@) =~= Seq::empty());
        }
        while i < root.children.len()
            invariant
                i <= root.children@.len(),
                ctx.text() == text,
                base.items.len() == 0,
                base.typedefs.len() + root.children@.len() <= u32::MAX,
                base.directives.len() + root.children@.len() <= u32::MAX,
                lower_upto(text, *root, base, i as int) == (ItemsView {
                    items: item_arena_seq(items).map_values(|i: Item| i@),
                    typedefs: ctx.typedefs(),
                    directives: ctx.directives(),
                }),
            decreases root.children@.len() - i,
        {
            let child = &root.children[i];
            proof {
                lemma_lower_upto_len(text, *root, base, i as int);
            }
            if child.named && !child.extra {
                match ctx.lower_item(child) {
                    Some(item) => {
                        let ghost before = item_arena_seq(items);
                        let _ = item_alloc(&mut items, item);
                        proof {
                            assert(item_arena_seq(items).map_values(|i: Item| i@)
                                =~= before.map_values(|i: Item| i@).push(item@));
                        }
                    },
                    None => {},
                }
            }
            i += 1;
        }
        Arc::new(Items { items, typedefs: ctx.typedefs, directives: ctx.directives })
    }
}

/// The items of a file.
pub fn lower_file(text: &str, tree: &SyntaxTree) -> (items: Arc<Items>)
    requires
        tree.root.children@.len() <= u32::MAX,
    ensures
        items@ == items_of(text@, tree.root),
{
    let ctx = ItemCtxt::new(text);
    proof {
        assert(ctx.typedefs() =~= Seq::empty());
        assert(ctx.directives() =~= Seq::empty());
    }
    ctx.lower(tree)
}

} // verus!
