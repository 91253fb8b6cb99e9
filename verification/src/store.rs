//! The arenas and inline lists that hold the intermediate representation,
//! from `la_arena` and `smallvec`, with what is taken on trust about them.
//!
//! Each function marked `external_body` makes one call into one of the two
//! crates; its contract is believed, not proved. As with `Vec`, running out
//! of memory is not modelled.

use vstd::prelude::*;
use la_arena::{Arena, Idx, RawIdx};
use smallvec::SmallVec;
use crate::ir::{DirectiveDefinition, Item, ItemRes, TypeDefinition};

verus! {

/// `la_arena::Arena`, known only through the functions below.
#[verifier::external_type_specification]
#[verifier::external_body]
#[verifier::reject_recursive_types(T)]
pub struct ExArena<T>(Arena<T>);

/// The items that an arena holds, in the order of their indices.
pub uninterp spec fn item_arena_seq(arena: Arena<Item>) -> Seq<Item>;

/// The type definitions that an arena holds, in the order of their indices.
pub uninterp spec fn typedef_arena_seq(arena: Arena<TypeDefinition>) -> Seq<TypeDefinition>;

/// The directive definitions that an arena holds, in the order of their indices.
pub uninterp spec fn directive_arena_seq(arena: Arena<DirectiveDefinition>) -> Seq<
    DirectiveDefinition,
>;

/// `Arena::new`: the new arena holds nothing.
#[verifier::external_body]
pub(crate) fn item_arena_new() -> (arena: Arena<Item>)
    ensures
        item_arena_seq(arena) == Seq::<Item>::empty(),
{
    Arena::new()
}

/// `Arena::len`: the number of values held.
#[verifier::external_body]
pub(crate) fn item_count(arena: &Arena<Item>) -> (n: usize)
    ensures
        n == item_arena_seq(*arena).len(),
{
    arena.len()
}

/// `Arena::alloc`: the value is appended, and the index returned is the
/// number of values held before, which must fit the 32-bit index.
#[verifier::external_body]
pub(crate) fn item_alloc(arena: &mut Arena<Item>, item: Item) -> (idx: u32)
    requires
        item_arena_seq(*old(arena)).len() <= u32::MAX,
    ensures
        item_arena_seq(*final(arena)) == item_arena_seq(*old(arena)).push(item),
        idx == item_arena_seq(*old(arena)).len(),
{
    arena.alloc(item).into_raw().into_u32()
}

/// Indexing an arena by `Idx`: the value at that position, which must exist.
#[verifier::external_body]
pub(crate) fn item_at(arena: &Arena<Item>, idx: u32) -> (item: &Item)
    requires
        idx < item_arena_seq(*arena).len(),
    ensures
        *item == item_arena_seq(*arena)[idx as int],
{
    &arena[Idx::from_raw(RawIdx::from_u32(idx))]
}

/// `Arena::new`: the new arena holds nothing.
#[verifier::external_body]
pub(crate) fn typedef_arena_new() -> (arena: Arena<TypeDefinition>)
    ensures
        typedef_arena_seq(arena) == Seq::<TypeDefinition>::empty(),
{
    Arena::new()
}

/// `Arena::len`: the number of values held.
#[verifier::external_body]
pub(crate) fn typedef_count(arena: &Arena<TypeDefinition>) -> (n: usize)
    ensures
        n == typedef_arena_seq(*arena).len(),
{
    arena.len()
}

/// `Arena::alloc`: the value is appended, and the index returned is the
/// number of values held before, which must fit the 32-bit index.
#[verifier::external_body]
pub(crate) fn typedef_alloc(arena: &mut Arena<TypeDefinition>, def: TypeDefinition) -> (idx: u32)
    requires
        typedef_arena_seq(*old(arena)).len() <= u32::MAX,
    ensures
        typedef_arena_seq(*final(arena)) == typedef_arena_seq(*old(arena)).push(def),
        idx == typedef_arena_seq(*old(arena)).len(),
{
    arena.alloc(def).into_raw().into_u32()
}

/// Indexing an arena by `Idx`: the value at that position, which must exist.
#[verifier::external_body]
pub(crate) fn typedef_at(arena: &Arena<TypeDefinition>, idx: u32) -> (def: &TypeDefinition)
    requires
        idx < typedef_arena_seq(*arena).len(),
    ensures
        *def == typedef_arena_seq(*arena)[idx as int],
{
    &arena[Idx::from_raw(RawIdx::from_u32(idx))]
}

/// `Arena::new`: the new arena holds nothing.
#[verifier::external_body]
pub(crate) fn directive_arena_new() -> (arena: Arena<DirectiveDefinition>)
    ensures
        directive_arena_seq(arena) == Seq::<DirectiveDefinition>::empty(),
{
    Arena::new()
}

/// `Arena::len`: the number of values held.
#[verifier::external_body]
pub(crate) fn directive_count(arena: &Arena<DirectiveDefinition>) -> (n: usize)
    ensures
        n == directive_arena_seq(*arena).len(),
{
    arena.len()
}

/// `Arena::alloc`: the value is appended, and the index returned is the
/// number of values held before, which must fit the 32-bit index.
#[verifier::external_body]
pub(crate) fn directive_alloc(
    arena: &mut Arena<DirectiveDefinition>,
    def: DirectiveDefinition,
) -> (idx: u32)
    requires
        directive_arena_seq(*old(arena)).len() <= u32::MAX,
    ensures
        directive_arena_seq(*final(arena)) == directive_arena_seq(*old(arena)).push(def),
        idx == directive_arena_seq(*old(arena)).len(),
{
    arena.alloc(def).into_raw().into_u32()
}

/// Indexing an arena by `Idx`: the value at that position, which must exist.
#[verifier::external_body]
pub(crate) fn directive_at(arena: &Arena<DirectiveDefinition>, idx: u32) -> (def:
    DirectiveDefinition)
    requires
        idx < directive_arena_seq(*arena).len(),
    ensures
        def == directive_arena_seq(*arena)[idx as int],
{
    arena[Idx::from_raw(RawIdx::from_u32(idx))]
}

/// Indices into one file's item arena, stored inline while there is one.
#[verifier::external_body]
#[derive(Debug, PartialEq, Eq, Hash)]
pub struct IndexList {
    inner: SmallVec<[u32; 1]>,
}

/// The indices that a list holds, in the order they were pushed.
pub uninterp spec fn index_list_seq(list: IndexList) -> Seq<u32>;

impl View for IndexList {
    type V = Seq<u32>;

    open spec fn view(&self) -> Seq<u32> {
        index_list_seq(*self)
    }
}

impl IndexList {
    /// `SmallVec::new`: the new list holds nothing.
    #[verifier::external_body]
    pub(crate) fn new() -> (list: IndexList)
        ensures
            index_list_seq(list) == Seq::<u32>::empty(),
    {
        IndexList { inner: SmallVec::new() }
    }

    /// `SmallVec::push`: the index is appended.
    #[verifier::external_body]
    pub(crate) fn push(&mut self, idx: u32)
        ensures
            index_list_seq(*final(self)) == index_list_seq(*old(self)).push(idx),
    {
        self.inner.push(idx)
    }

    /// `SmallVec::len`: the number of indices held.
    #[verifier::external_body]
    pub(crate) fn len(&self) -> (n: usize)
        ensures
            n == index_list_seq(*self).len(),
    {
        self.inner.len()
    }

    /// Indexing a `SmallVec`: the index at that position, which must exist.
    #[verifier::external_body]
    pub(crate) fn get(&self, i: usize) -> (idx: u32)
        requires
            i < index_list_seq(*self).len(),
        ensures
            idx == index_list_seq(*self)[i as int],
    {
        self.inner[i]
    }
}

/// The items that a name refers to, stored inline while there is one.
#[verifier::external_body]
#[derive(Debug, PartialEq, Eq, Hash)]
pub struct Resolutions {
    inner: SmallVec<[ItemRes; 1]>,
}

/// The item references that a list holds, in the order they were pushed.
pub uninterp spec fn resolutions_seq(list: Resolutions) -> Seq<ItemRes>;

impl View for Resolutions {
    type V = Seq<ItemRes>;

    open spec fn view(&self) -> Seq<ItemRes> {
        resolutions_seq(*self)
    }
}

impl Resolutions {
    /// `SmallVec::new`: the new list holds nothing.
    #[verifier::external_body]
    pub(crate) fn new() -> (list: Resolutions)
        ensures
            resolutions_seq(list) == Seq::<ItemRes>::empty(),
    {
        Resolutions { inner: SmallVec::new() }
    }

    /// `SmallVec::push`: the reference is appended.
    #[verifier::external_body]
    pub(crate) fn push(&mut self, res: ItemRes)
        ensures
            resolutions_seq(*final(self)) == resolutions_seq(*old(self)).push(res),
    {
        self.inner.push(res)
    }

    /// `SmallVec::len`: the number of references held.
    #[verifier::external_body]
    pub(crate) fn len(&self) -> (n: usize)
        ensures
            n == resolutions_seq(*self).len(),
    {
        self.inner.len()
    }

    /// `SmallVec::as_slice`: the references in order.
    #[verifier::external_body]
    pub(crate) fn as_slice(&self) -> (items: &[ItemRes])
        ensures
            items@ == resolutions_seq(*self),
    {
        self.inner.as_slice()
    }
}

impl IndexList {
    /// The indices as a vector.
    pub fn to_vec(&self) -> (v: Vec<u32>)
        ensures
            v@ == self@,
    {
        let n = self.len();
        let mut out: Vec<u32> = Vec::new();
        let mut i: usize = 0;
        while i < n
            invariant
                n == self@.len(),
                i <= n,
                out@ == self@.subrange(0, i as int),
            decreases n - i,
        {
            out.push(self.get(i));
            proof {
                assert(out@ =~= self@.subrange(0, i + 1));
            }
            i += 1;
        }
        proof {
            assert(self@.subrange(0, n as int) =~= self@);
        }
        out
    }

    /// How many indices the list holds.
    pub fn count(&self) -> (n: usize)
        ensures
            n == self@.len(),
    {
        self.len()
    }
}

impl Resolutions {
    /// The references as a vector.
    pub fn to_vec(&self) -> (v: Vec<ItemRes>)
        ensures
            v@ == self@,
    {
        let items = self.as_slice();
        let mut out: Vec<ItemRes> = Vec::new();
        let mut i: usize = 0;
        while i < items.len()
            invariant
                i <= items@.len(),
                items@ == self@,
                out@ == self@.subrange(0, i as int),
            decreases items@.len() - i,
        {
            out.push(items[i]);
            proof {
                assert(out@ =~= self@.subrange(0, i + 1));
            }
            i += 1;
        }
        proof {
            assert(self@.subrange(0, items@.len() as int) =~= self@);
        }
        out
    }

    /// How many references the list holds.
    pub fn count(&self) -> (n: usize)
        ensures
            n == self@.len(),
    {
        self.len()
    }

    /// Whether the list holds no reference.
    pub fn is_empty(&self) -> (b: bool)
        ensures
            b == (self@.len() == 0),
    {
        self.len() == 0
    }
}

} // verus!
