//! Types as written in field, argument and member positions, with the items
//! their names resolve to.

use std::sync::Arc;
use vstd::prelude::*;
use vstd::string::StringExecFns;
use crate::ir::{ItemRes, Name, NameView};
use crate::store::Resolutions;
use crate::syntax::Range;

verus! {

/// What a name resolves to: at least one item, or nothing.
#[derive(Debug, PartialEq, Eq)]
pub enum Res {
    Item(Resolutions),
    Unresolved,
}

pub enum ResView {
    Item(Seq<ItemRes>),
    Unresolved,
}

impl View for Res {
    type V = ResView;

    open spec fn view(&self) -> ResView {
        match self {
            Res::Item(items) => ResView::Item(items@),
            Res::Unresolved => ResView::Unresolved,
        }
    }
}

/// A type reference, shared by whoever holds it.
pub type Ty = Arc<Type>;

/// A type reference with the place it was written at.
#[derive(Debug, PartialEq, Eq)]
pub struct Type {
    pub range: Range,
    pub kind: TyKind,
}

/// The shape of a type reference.
#[derive(Debug, PartialEq, Eq)]
pub enum TyKind {
    Named(Name, Res),
    NonNull(Ty),
    List(Ty),
    /// The name resolved to nothing.
    Unresolved(Name),
}

pub struct TypeView {
    pub range: Range,
    pub kind: TyKindView,
}

pub enum TyKindView {
    Named(NameView, ResView),
    NonNull(Box<TypeView>),
    List(Box<TypeView>),
    Unresolved(NameView),
}

impl View for Type {
    type V = TypeView;

    open spec fn view(&self) -> TypeView
        decreases self,
    {
        TypeView {
            range: self.range,
            kind: match self.kind {
                TyKind::Named(name, res) => TyKindView::Named(name@, res@),
                TyKind::NonNull(inner) => TyKindView::NonNull(Box::new((*inner)@)),
                TyKind::List(inner) => TyKindView::List(Box::new((*inner)@)),
                TyKind::Unresolved(name) => TyKindView::Unresolved(name@),
            },
        }
    }
}

impl TypeView {
    /// The items that the name at the core of the type resolves to.
    pub open spec fn item_resolutions(self) -> Seq<ItemRes>
        decreases self,
    {
        match self.kind {
            TyKindView::Named(_, ResView::Item(items)) => items,
            TyKindView::Named(_, ResView::Unresolved) => Seq::empty(),
            TyKindView::NonNull(inner) => inner.item_resolutions(),
            TyKindView::List(inner) => inner.item_resolutions(),
            TyKindView::Unresolved(_) => Seq::empty(),
        }
    }

    /// The type as it is written: the name, in brackets for a list, with
    /// an exclamation mark behind it where it is non-null.
    pub open spec fn written(self) -> Seq<char>
        decreases self,
    {
        match self.kind {
            TyKindView::Named(name, _) => name.text,
            TyKindView::Unresolved(name) => name.text,
            TyKindView::NonNull(inner) => inner.written() + "!"@,
            TyKindView::List(inner) => "["@ + inner.written() + "]"@,
        }
    }

    /// The name at the core of the type, under any list and non-null wrappers.
    pub open spec fn name(self) -> NameView
        decreases self,
    {
        match self.kind {
            TyKindView::Named(name, _) => name,
            TyKindView::NonNull(inner) => inner.name(),
            TyKindView::List(inner) => inner.name(),
            TyKindView::Unresolved(name) => name,
        }
    }
}

impl Type {
    /// The items that the name at the core of the type resolves to.
    pub fn item_resolutions(&self) -> (r: &[ItemRes])
        ensures
            r@ == self@.item_resolutions(),
        decreases self,
    {
        match &self.kind {
            TyKind::Named(_, res) => match res {
                Res::Item(items) => items.as_slice(),
                Res::Unresolved => &[],
            },
            TyKind::NonNull(ty) => ty.item_resolutions(),
            TyKind::List(ty) => ty.item_resolutions(),
            TyKind::Unresolved(_) => &[],
        }
    }

    /// The type as it is written.
    pub fn written(&self) -> (r: String)
        ensures
            r@ == self@.written(),
        decreases self,
    {
        match &self.kind {
            TyKind::Named(name, _) => name.text.clone(),
            TyKind::Unresolved(name) => name.text.clone(),
            TyKind::NonNull(ty) => {
                let mut out = ty.written();
                out.append("!");
                out
            },
            TyKind::List(ty) => {
                let mut out = "[".to_owned();
                let inner = ty.written();
                out.append(inner.as_str());
                out.append("]");
                out
            },
        }
    }

    /// The name at the core of the type.
    pub fn name(&self) -> (r: Name)
        ensures
            r@ == self@.name(),
        decreases self,
    {
        match &self.kind {
            TyKind::Named(name, _) => name.clone(),
            TyKind::Unresolved(name) => name.clone(),
            TyKind::NonNull(ty) => ty.name(),
            TyKind::List(ty) => ty.name(),
        }
    }
}

/// An object type in the type graph.
#[derive(Clone, Debug, PartialEq, Eq)]
pub struct Object {}

/// A scalar type: one of the built-in scalars or one that a schema declares.
#[derive(Clone, Debug, PartialEq, Eq)]
pub enum Scalar {
    Id,
    Int,
    String,
    Float,
    Custom(CustomScalar),
}

/// A scalar that a schema declares.
#[derive(Clone, Debug, PartialEq, Eq)]
pub struct CustomScalar {}

} // verus!
