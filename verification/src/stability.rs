//! Names stay where the text around them moves.
//!
//! An edit that inserts whitespace between tokens moves nodes about but
//! changes neither the shape of the tree nor the text of any name. This
//! module says what that means for two trees and proves that the name at a
//! point is then the name at the point it moved to.

use vstd::prelude::*;
use crate::db::SourceView;
use crate::diagnostics::scope_of;
use crate::ide::{spec_name_at, Position};
use crate::ir::NameView;
use crate::lower_body::{bare_type_of, list_type_of, named_type_of, text_of, type_of, Scope};
use crate::syntax::{NodeKind, Point, SyntaxNode};
use crate::ty::TypeView;

verus! {

/// The kinds of node whose text is a name.
pub open spec fn is_name_token(kind: NodeKind) -> bool {
    kind == NodeKind::Name || kind == NodeKind::DirectiveName || kind == NodeKind::NamedType
}

/// Whether `b`, in a text `text_b`, is the tree `a` of `text_a` moved, with
/// the point `q` in the place of `p`: the trees have the same shape and the
/// same kinds of node, every name reads the same, and `q` lies in a node
/// exactly when `p` lies in the node it corresponds to.
pub open spec fn moved(
    a: SyntaxNode,
    b: SyntaxNode,
    text_a: Seq<char>,
    text_b: Seq<char>,
    p: Point,
    q: Point,
) -> bool
    decreases a,
{
    &&& a.kind == b.kind
    &&& a.named == b.named
    &&& a.range.spec_contains(p) == b.range.spec_contains(q)
    &&& is_name_token(a.kind) ==> text_of(text_a, a) == text_of(text_b, b)
    &&& a.children@.len() == b.children@.len()
    &&& forall|i: int|
        0 <= i < a.children@.len() ==> moved(
            #[trigger] a.children@[i],
            b.children@[i],
            text_a,
            text_b,
            p,
            q,
        )
}

/// The text of a name that may be absent.
pub open spec fn name_text(name: Option<NameView>) -> Option<Seq<char>> {
    match name {
        Some(n) => Some(n.text),
        None => None,
    }
}

/// The text of the name at the core of a type that may have failed to lower.
pub open spec fn type_name_text(ty: Option<TypeView>) -> Option<Seq<char>> {
    match ty {
        Some(t) => Some(t.name().text),
        None => None,
    }
}

/// Whether two nodes that may be absent are both absent or one the other moved.
pub open spec fn moved_opt(
    a: Option<SyntaxNode>,
    b: Option<SyntaxNode>,
    text_a: Seq<char>,
    text_b: Seq<char>,
    p: Point,
    q: Point,
) -> bool {
    match (a, b) {
        (Some(x), Some(y)) => moved(x, y, text_a, text_b, p, q),
        (None, None) => true,
        _ => false,
    }
}

proof fn lemma_moved_children(
    a: SyntaxNode,
    b: SyntaxNode,
    text_a: Seq<char>,
    text_b: Seq<char>,
    p: Point,
    q: Point,
    i: int,
)
    requires
        moved(a, b, text_a, text_b, p, q),
        0 <= i < a.children@.len(),
    ensures
        moved(a.children@[i], b.children@[i], text_a, text_b, p, q),
        a.children@[i].kind == b.children@[i].kind,
        a.children@[i].named == b.children@[i].named,
        a.children@[i].range.spec_contains(p) == b.children@[i].range.spec_contains(q),
{
    reveal_with_fuel(moved, 2);
}

proof fn lemma_moved_child_containing(
    a: SyntaxNode,
    b: SyntaxNode,
    text_a: Seq<char>,
    text_b: Seq<char>,
    p: Point,
    q: Point,
    from: int,
)
    requires
        moved(a, b, text_a, text_b, p, q),
        0 <= from,
    ensures
        a.child_containing_from(p, from) == b.child_containing_from(q, from),
        a.child_containing_from(p, from) matches Some(i) ==> from <= i < a.children@.len(),
    decreases a.children@.len() - from,
{
    if from < a.children@.len() {
        lemma_moved_children(a, b, text_a, text_b, p, q, from);
        lemma_moved_child_containing(a, b, text_a, text_b, p, q, from + 1);
    }
}

/// The smallest named node around the point is, in the moved tree, the
/// smallest named node around the moved point.
pub proof fn lemma_moved_named_node_at(
    a: SyntaxNode,
    b: SyntaxNode,
    text_a: Seq<char>,
    text_b: Seq<char>,
    p: Point,
    q: Point,
)
    requires
        moved(a, b, text_a, text_b, p, q),
    ensures
        moved_opt(a.spec_named_node_at(p), b.spec_named_node_at(q), text_a, text_b, p, q),
    decreases a,
{
    if a.range.spec_contains(p) {
        lemma_moved_child_containing(a, b, text_a, text_b, p, q, 0);
        match a.child_containing_from(p, 0) {
            Some(i) => {
                lemma_moved_children(a, b, text_a, text_b, p, q, i);
                lemma_moved_named_node_at(a.children@[i], b.children@[i], text_a, text_b, p, q);
            },
            None => {},
        }
    }
}

proof fn lemma_moved_counts(
    a: SyntaxNode,
    b: SyntaxNode,
    text_a: Seq<char>,
    text_b: Seq<char>,
    p: Point,
    q: Point,
    upto: int,
)
    requires
        moved(a, b, text_a, text_b, p, q),
        0 <= upto <= a.children@.len(),
    ensures
        a.sound_count(upto) == b.sound_count(upto),
    decreases upto,
{
    if upto > 0 {
        lemma_moved_children(a, b, text_a, text_b, p, q, upto - 1);
        lemma_moved_counts(a, b, text_a, text_b, p, q, upto - 1);
    }
}

proof fn lemma_moved_first_sound(
    a: SyntaxNode,
    b: SyntaxNode,
    text_a: Seq<char>,
    text_b: Seq<char>,
    p: Point,
    q: Point,
    from: int,
)
    requires
        moved(a, b, text_a, text_b, p, q),
        0 <= from,
    ensures
        a.first_sound_from(from) == b.first_sound_from(from),
        a.first_sound_from(from) matches Some(i) ==> from <= i < a.children@.len(),
    decreases a.children@.len() - from,
{
    if from < a.children@.len() {
        lemma_moved_children(a, b, text_a, text_b, p, q, from);
        lemma_moved_first_sound(a, b, text_a, text_b, p, q, from + 1);
    }
}

proof fn lemma_moved_sole_named_child(
    a: SyntaxNode,
    b: SyntaxNode,
    text_a: Seq<char>,
    text_b: Seq<char>,
    p: Point,
    q: Point,
)
    requires
        moved(a, b, text_a, text_b, p, q),
    ensures
        moved_opt(a.spec_sole_named_child(), b.spec_sole_named_child(), text_a, text_b, p, q),
        a.spec_sole_named_child() matches Some(c) ==> decreases_to!(a => c),
{
    let n = a.children@.len() as int;
    lemma_moved_counts(a, b, text_a, text_b, p, q, n);
    lemma_moved_first_sound(a, b, text_a, text_b, p, q, 0);
    a.lemma_sole_named_child();
    match a.first_sound_from(0) {
        Some(i) => {
            lemma_moved_children(a, b, text_a, text_b, p, q, i);
        },
        None => {},
    }
}

proof fn lemma_moved_named_type(
    sa: Scope,
    sb: Scope,
    a: SyntaxNode,
    b: SyntaxNode,
    p: Point,
    q: Point,
)
    requires
        moved(a, b, sa.text, sb.text, p, q),
        a.kind == NodeKind::NamedType,
    ensures
        type_name_text(named_type_of(sa, a)) == type_name_text(named_type_of(sb, b)),
{
}

proof fn lemma_moved_list_type(
    sa: Scope,
    sb: Scope,
    a: SyntaxNode,
    b: SyntaxNode,
    p: Point,
    q: Point,
)
    requires
        moved(a, b, sa.text, sb.text, p, q),
    ensures
        type_name_text(list_type_of(sa, a)) == type_name_text(list_type_of(sb, b)),
    decreases a, 0int,
{
    lemma_moved_sole_named_child(a, b, sa.text, sb.text, p, q);
    match a.spec_sole_named_child() {
        Some(inner) => {
            lemma_moved_type(sa, sb, inner, b.spec_sole_named_child().unwrap(), p, q);
        },
        None => {},
    }
}

proof fn lemma_moved_bare_type(
    sa: Scope,
    sb: Scope,
    a: SyntaxNode,
    b: SyntaxNode,
    p: Point,
    q: Point,
)
    requires
        moved(a, b, sa.text, sb.text, p, q),
    ensures
        type_name_text(bare_type_of(sa, a)) == type_name_text(bare_type_of(sb, b)),
    decreases a, 1int,
{
    match a.kind {
        NodeKind::NamedType => {
            lemma_moved_named_type(sa, sb, a, b, p, q);
        },
        NodeKind::ListType => {
            lemma_moved_list_type(sa, sb, a, b, p, q);
        },
        NodeKind::NonNullType => {
            lemma_moved_sole_named_child(a, b, sa.text, sb.text, p, q);
            match a.spec_sole_named_child() {
                Some(inner) => {
                    let other = b.spec_sole_named_child().unwrap();
                    match inner.kind {
                        NodeKind::NamedType => {
                            lemma_moved_named_type(sa, sb, inner, other, p, q);
                        },
                        NodeKind::ListType => {
                            lemma_moved_list_type(sa, sb, inner, other, p, q);
                        },
                        _ => {},
                    }
                },
                None => {},
            }
        },
        _ => {},
    }
}

/// A type node and the node it moved to have the same name at their core.
pub proof fn lemma_moved_type(
    sa: Scope,
    sb: Scope,
    a: SyntaxNode,
    b: SyntaxNode,
    p: Point,
    q: Point,
)
    requires
        moved(a, b, sa.text, sb.text, p, q),
    ensures
        type_name_text(type_of(sa, a)) == type_name_text(type_of(sb, b)),
    decreases a, 2int,
{
    match a.kind {
        NodeKind::Type => {
            lemma_moved_sole_named_child(a, b, sa.text, sb.text, p, q);
            match a.spec_sole_named_child() {
                Some(inner) => {
                    lemma_moved_bare_type(sa, sb, inner, b.spec_sole_named_child().unwrap(), p, q);
                },
                None => {},
            }
        },
        _ => {
            lemma_moved_bare_type(sa, sb, a, b, p, q);
        },
    }
}

proof fn lemma_moved_named_node_under(
    a: SyntaxNode,
    b: SyntaxNode,
    text_a: Seq<char>,
    text_b: Seq<char>,
    p: Point,
    q: Point,
    parent: Option<NodeKind>,
)
    requires
        moved(a, b, text_a, text_b, p, q),
    ensures
        match (a.spec_named_node_under(parent, p), b.spec_named_node_under(parent, q)) {
            (Some(x), Some(y)) => x.0 == y.0 && moved(x.1, y.1, text_a, text_b, p, q),
            (None, None) => true,
            _ => false,
        },
    decreases a,
{
    if a.range.spec_contains(p) {
        lemma_moved_child_containing(a, b, text_a, text_b, p, q, 0);
        match a.child_containing_from(p, 0) {
            Some(i) => {
                lemma_moved_children(a, b, text_a, text_b, p, q, i);
                lemma_moved_named_node_under(
                    a.children@[i],
                    b.children@[i],
                    text_a,
                    text_b,
                    p,
                    q,
                    Some(a.kind),
                );
            },
            None => {},
        }
    }
}

/// The name at a point does not change where the text around it moves:
/// if the tree of one file is the tree of another moved, with one point in
/// the place of the other, the names at the two points read the same.
pub proof fn lemma_name_at_stable(
    before: SourceView,
    after: SourceView,
    at: Position,
    moved_to: Position,
)
    requires
        before.files.contains_key(at.file),
        after.files.contains_key(moved_to.file),
        moved(
            before.files[at.file].tree.root,
            after.files[moved_to.file].tree.root,
            before.files[at.file].text@,
            after.files[moved_to.file].text@,
            at.point,
            moved_to.point,
        ),
    ensures
        name_text(spec_name_at(before, at)) == name_text(spec_name_at(after, moved_to)),
{
    let a = before.files[at.file].tree.root;
    let b = after.files[moved_to.file].tree.root;
    let sa = scope_of(before, at.file);
    let sb = scope_of(after, moved_to.file);
    lemma_moved_named_node_under(a, b, sa.text, sb.text, at.point, moved_to.point, None);
    match a.spec_named_node_under(None, at.point) {
        Some(x) => {
            let y = b.spec_named_node_under(None, moved_to.point).unwrap();
            lemma_moved_type(sa, sb, x.1, y.1, at.point, moved_to.point);
        },
        None => {},
    }
}

} // verus!
