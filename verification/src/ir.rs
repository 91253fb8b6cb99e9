//! The item-level intermediate representation of one schema file.

use vstd::prelude::*;
use la_arena::Arena;
use crate::store::{
    directive_arena_seq, directive_at, directive_count, item_arena_seq, item_at, item_count,
    typedef_arena_seq, typedef_at, typedef_count,
};
use crate::syntax::Range;

verus! {

/// An interned path. Two ids are the same file exactly when they are equal.
#[derive(Clone, Copy, Debug, PartialEq, Eq, Hash, PartialOrd, Ord, Structural)]
pub struct FileId(pub u32);

/// A name as written in the source, with the place it was written at.
#[derive(Debug)]
pub struct Name {
    pub text: String,
    pub range: Option<Range>,
}

pub struct NameView {
    pub text: Seq<char>,
    pub range: Option<Range>,
}

impl View for Name {
    type V = NameView;

    open spec fn view(&self) -> NameView {
        NameView { text: self.text@, range: self.range }
    }
}

impl PartialEq for Name {
    fn eq(&self, other: &Name) -> (b: bool) {
        self.text == other.text
    }
}

impl Eq for Name {

}

impl vstd::std_specs::cmp::PartialEqSpecImpl for Name {
    open spec fn obeys_eq_spec() -> bool {
        true
    }

    /// Names are equal when their texts are; the place does not count.
    open spec fn eq_spec(&self, other: &Name) -> bool {
        self.text@ == other.text@
    }
}

impl Clone for Name {
    fn clone(&self) -> (name: Name)
        ensures
            name@ == self@,
    {
        Name { text: self.text.clone(), range: self.range }
    }
}

impl Name {
    /// A name that was not read from a source text.
    pub fn unranged(text: &str) -> (name: Name)
        ensures
            name@ == (NameView { text: text@, range: None }),
    {
        Name { text: text.to_owned(), range: None }
    }

    /// A name read from the given place of a source text.
    pub fn ranged(text: &str, range: Range) -> (name: Name)
        ensures
            name@ == (NameView { text: text@, range: Some(range) }),
    {
        Name { text: text.to_owned(), range: Some(range) }
    }

    pub fn as_str(&self) -> (s: &str)
        ensures
            s@ == self@.text,
    {
        self.text.as_str()
    }

    /// Names are the same when their texts are; the place does not count.
    pub fn same(&self, other: &Name) -> (b: bool)
        ensures
            b == (self@.text == other@.text),
    {
        self.text == other.text
    }
}

/// The places in a schema that a directive may be attached to.
#[derive(Clone, Copy, Debug, PartialEq, Eq, Hash, Structural)]
pub enum DirectiveLocation {
    ArgumentDefinition,
    Enum,
    EnumValue,
    FieldDefinition,
    InputFieldDefinition,
    InputObject,
    Interface,
    Object,
    Scalar,
    Schema,
    Union,
}

impl DirectiveLocation {
    /// The bit that stands for this location.
    pub open spec fn spec_bit(self) -> u16 {
        match self {
            DirectiveLocation::ArgumentDefinition => 0x001,
            DirectiveLocation::Enum => 0x002,
            DirectiveLocation::EnumValue => 0x004,
            DirectiveLocation::FieldDefinition => 0x008,
            DirectiveLocation::InputFieldDefinition => 0x010,
            DirectiveLocation::InputObject => 0x020,
            DirectiveLocation::Interface => 0x040,
            DirectiveLocation::Object => 0x080,
            DirectiveLocation::Scalar => 0x100,
            DirectiveLocation::Schema => 0x200,
            DirectiveLocation::Union => 0x400,
        }
    }

    pub fn bit(self) -> (b: u16)
        ensures
            b == self.spec_bit(),
    {
        match self {
            DirectiveLocation::ArgumentDefinition => 0x001,
            DirectiveLocation::Enum => 0x002,
            DirectiveLocation::EnumValue => 0x004,
            DirectiveLocation::FieldDefinition => 0x008,
            DirectiveLocation::InputFieldDefinition => 0x010,
            DirectiveLocation::InputObject => 0x020,
            DirectiveLocation::Interface => 0x040,
            DirectiveLocation::Object => 0x080,
            DirectiveLocation::Scalar => 0x100,
            DirectiveLocation::Schema => 0x200,
            DirectiveLocation::Union => 0x400,
        }
    }
}

/// A set of directive locations, one bit each.
#[derive(Clone, Copy, Debug, PartialEq, Eq, Hash, Structural)]
pub struct DirectiveLocations {
    pub bits: u16,
}

impl View for DirectiveLocations {
    type V = Set<DirectiveLocation>;

    open spec fn view(&self) -> Set<DirectiveLocation> {
        Set::new(|l: DirectiveLocation| self.bits & l.spec_bit() != 0)
    }
}

/// Distinct locations have distinct bits, and every bit is set in itself.
pub proof fn lemma_location_bits(a: DirectiveLocation, b: DirectiveLocation)
    ensures
        (a.spec_bit() & b.spec_bit() != 0) <==> a == b,
{
    let x = a.spec_bit();
    let y = b.spec_bit();
    assert((x == 0x001 || x == 0x002 || x == 0x004 || x == 0x008 || x == 0x010 || x == 0x020 || x
        == 0x040 || x == 0x080 || x == 0x100 || x == 0x200 || x == 0x400) && (y == 0x001 || y
        == 0x002 || y == 0x004 || y == 0x008 || y == 0x010 || y == 0x020 || y == 0x040 || y
        == 0x080 || y == 0x100 || y == 0x200 || y == 0x400) ==> ((x & y != 0) <==> x == y))
        by (bit_vector);
}

impl DirectiveLocations {
    pub fn empty() -> (s: DirectiveLocations)
        ensures
            s@ == Set::<DirectiveLocation>::empty(),
            s.bits == 0,
    {
        let s = DirectiveLocations { bits: 0 };
        proof {
            assert forall|l: DirectiveLocation| !s@.contains(l) by {
                let b = l.spec_bit();
                assert(0u16 & b == 0) by (bit_vector);
            }
            assert(s@ =~= Set::<DirectiveLocation>::empty());
        }
        s
    }

    pub fn single(location: DirectiveLocation) -> (s: DirectiveLocations)
        ensures
            s@ == set![location],
            s.bits == location.spec_bit(),
    {
        let s = DirectiveLocations { bits: location.bit() };
        proof {
            assert forall|l: DirectiveLocation| s@.contains(l) <==> l == location by {
                lemma_location_bits(location, l);
            }
            assert(s@ =~= set![location]);
        }
        s
    }

    pub fn contains(&self, location: DirectiveLocation) -> (b: bool)
        ensures
            b == self@.contains(location),
    {
        self.bits & location.bit() != 0
    }

    pub fn union(self, other: DirectiveLocations) -> (s: DirectiveLocations)
        ensures
            s@ == self@.union(other@),
            s.bits == self.bits | other.bits,
    {
        let s = DirectiveLocations { bits: self.bits | other.bits };
        proof {
            assert forall|l: DirectiveLocation|
                s@.contains(l) <==> (self@.contains(l) || other@.contains(l)) by {
                let x = self.bits;
                let y = other.bits;
                let b = l.spec_bit();
                assert(((x | y) & b != 0) <==> (x & b != 0 || y & b != 0)) by (bit_vector);
            }
            assert(s@ =~= self@.union(other@));
        }
        s
    }

    pub fn insert(self, location: DirectiveLocation) -> (s: DirectiveLocations)
        ensures
            s@ == self@.insert(location),
            s.bits == self.bits | location.spec_bit(),
    {
        let one = DirectiveLocations::single(location);
        let s = self.union(one);
        proof {
            assert(s@ =~= self@.insert(location));
        }
        s
    }
}

/// The kinds of type that a schema defines.
#[derive(Clone, Copy, Debug, PartialEq, Eq, Hash, Structural)]
pub enum TypeDefinitionKind {
    Object,
    Interface,
    Scalar,
    Enum,
    Union,
    Input,
}

/// A directive attached to a definition.
#[derive(Clone, Debug, PartialEq, Eq)]
pub struct Directive {
    pub range: Range,
    pub name: Name,
}

pub struct DirectiveView {
    pub range: Range,
    pub name: NameView,
}

impl View for Directive {
    type V = DirectiveView;

    open spec fn view(&self) -> DirectiveView {
        DirectiveView { range: self.range, name: self.name@ }
    }
}

/// A type definition or a type extension, as far as its header goes.
#[derive(Clone, Debug, PartialEq, Eq)]
pub struct TypeDefinition {
    pub kind: TypeDefinitionKind,
    pub is_ext: bool,
    pub directives: Vec<Directive>,
    /// The interfaces implemented, in source order, each name once; `None`
    /// where the definition says nothing of interfaces.
    pub implementations: Option<Vec<Name>>,
}

pub struct TypeDefinitionView {
    pub kind: TypeDefinitionKind,
    pub is_ext: bool,
    pub directives: Seq<DirectiveView>,
    pub implementations: Option<Seq<NameView>>,
}

impl View for TypeDefinition {
    type V = TypeDefinitionView;

    open spec fn view(&self) -> TypeDefinitionView {
        TypeDefinitionView {
            kind: self.kind,
            is_ext: self.is_ext,
            directives: self.directives@.map_values(|d: Directive| d@),
            implementations: match self.implementations {
                Some(names) => Some(names@.map_values(|n: Name| n@)),
                None => None,
            },
        }
    }
}

/// The definition of a directive: where it may be attached.
#[derive(Clone, Copy, Debug, PartialEq, Eq, Hash, Structural)]
pub struct DirectiveDefinition {
    pub locations: DirectiveLocations,
}

/// What an item is, with its index in the arena of its kind.
#[derive(Clone, Copy, Debug, PartialEq, Eq, Hash, Structural)]
pub enum ItemKind {
    TypeDefinition(u32),
    DirectiveDefinition(u32),
}

/// A root-level definition of a file.
#[derive(Debug, PartialEq, Eq)]
pub struct Item {
    pub range: Range,
    pub name: Name,
    pub kind: ItemKind,
}

pub struct ItemView {
    pub range: Range,
    pub name: NameView,
    pub kind: ItemKind,
}

impl View for Item {
    type V = ItemView;

    open spec fn view(&self) -> ItemView {
        ItemView { range: self.range, name: self.name@, kind: self.kind }
    }
}

impl Clone for Item {
    fn clone(&self) -> (item: Item)
        ensures
            item@ == self@,
    {
        Item { range: self.range, name: self.name.clone(), kind: self.kind }
    }
}

/// The items of one file with the definitions they point to.
#[derive(Debug, PartialEq, Eq)]
pub struct Items {
    pub items: Arena<Item>,
    pub typedefs: Arena<TypeDefinition>,
    pub directives: Arena<DirectiveDefinition>,
}

pub struct ItemsView {
    pub items: Seq<ItemView>,
    pub typedefs: Seq<TypeDefinitionView>,
    pub directives: Seq<DirectiveDefinition>,
}

impl View for Items {
    type V = ItemsView;

    open spec fn view(&self) -> ItemsView {
        ItemsView {
            items: item_arena_seq(self.items).map_values(|i: Item| i@),
            typedefs: typedef_arena_seq(self.typedefs).map_values(|t: TypeDefinition| t@),
            directives: directive_arena_seq(self.directives),
        }
    }
}

impl ItemsView {
    pub open spec fn empty() -> ItemsView {
        ItemsView { items: Seq::empty(), typedefs: Seq::empty(), directives: Seq::empty() }
    }

    /// The names of the items, in item order.
    pub open spec fn names(self) -> Seq<Seq<char>> {
        self.items.map_values(|i: ItemView| i.name.text)
    }

    /// Every item points into the arena of its kind.
    pub open spec fn in_bounds(self) -> bool {
        forall|i: int|
            0 <= i < self.items.len() ==> match (#[trigger] self.items[i]).kind {
                ItemKind::TypeDefinition(k) => k < self.typedefs.len(),
                ItemKind::DirectiveDefinition(k) => k < self.directives.len(),
            }
    }
}

impl Items {
    pub fn len(&self) -> (n: usize)
        ensures
            n == self@.items.len(),
    {
        item_count(&self.items)
    }

    /// The item at an index, if there is one.
    pub fn item(&self, idx: u32) -> (r: Option<&Item>)
        ensures
            match r {
                Some(item) => idx < self@.items.len() && item@ == self@.items[idx as int],
                None => idx >= self@.items.len(),
            },
    {
        if (idx as usize) < item_count(&self.items) {
            Some(item_at(&self.items, idx))
        } else {
            None
        }
    }

    /// The type definition at an index, if there is one.
    pub fn typedef(&self, idx: u32) -> (r: Option<&TypeDefinition>)
        ensures
            match r {
                Some(def) => idx < self@.typedefs.len() && def@ == self@.typedefs[idx as int],
                None => idx >= self@.typedefs.len(),
            },
    {
        if (idx as usize) < typedef_count(&self.typedefs) {
            Some(typedef_at(&self.typedefs, idx))
        } else {
            None
        }
    }

    /// The directive definition at an index, if there is one.
    pub fn directive(&self, idx: u32) -> (r: Option<DirectiveDefinition>)
        ensures
            match r {
                Some(def) => idx < self@.directives.len() && def == self@.directives[idx as int],
                None => idx >= self@.directives.len(),
            },
    {
        if (idx as usize) < directive_count(&self.directives) {
            Some(directive_at(&self.directives, idx))
        } else {
            None
        }
    }
}

/// A reference to an item of some file.
#[derive(Clone, Copy, Debug, PartialEq, Eq, Hash, Structural)]
pub struct ItemRes {
    pub file: FileId,
    pub idx: u32,
}

} // verus!
