//! What is wrong with a file: the places where its text does not parse, and
//! the names in the bodies of its items that resolve to nothing.

use vstd::prelude::*;
use crate::body::{
    diagnostic_views, Diagnostic, DiagnosticKind, DiagnosticKindView, DiagnosticView, ItemBody,
    ItemBodyView,
};
use crate::db::{Database, SourceView};
use crate::ir::{FileId, ItemKind, ItemRes};
use crate::lower_body::{body_of, BodyCtxt, Scope};
use crate::syntax::{deref_opt, NodeKind, Range, SyntaxNode};

verus! {

/// The syntax errors in a subtree: one for each error node, in preorder.
pub open spec fn errors_in(node: SyntaxNode) -> Seq<DiagnosticView>
    decreases node, 1int, 0int,
{
    let own = if node.is_error() {
        seq![DiagnosticView { range: node.range, kind: DiagnosticKindView::Syntax }]
    } else {
        Seq::empty()
    };
    own + errors_in_children(node, node.children@.len() as int)
}

/// The syntax errors in the subtrees of the first `upto` children.
pub open spec fn errors_in_children(node: SyntaxNode, upto: int) -> Seq<DiagnosticView>
    decreases node, 0int, upto,
{
    if upto <= 0 || upto > node.children@.len() {
        Seq::empty()
    } else {
        errors_in_children(node, upto - 1) + errors_in(node.children@[upto - 1])
    }
}

/// The node that defines the type whose item has the given range: under
/// the first root-level `item` at or after `from` whose definition has that
/// range and is a type definition or extension.
pub open spec fn definition_at(root: SyntaxNode, range: Range, from: int) -> Option<SyntaxNode>
    decreases root.children@.len() - from,
{
    if from < 0 || from >= root.children@.len() {
        None
    } else {
        let c = root.children@[from];
        let found = if c.is_relevant() && c.kind == NodeKind::Item {
            match c.spec_sole_named_child() {
                Some(def) => if def.range == range && (def.kind == NodeKind::TypeDefinition
                    || def.kind == NodeKind::TypeExtension) {
                    def.spec_sole_named_child()
                } else {
                    None
                },
                None => None,
            }
        } else {
            None
        };
        match found {
            Some(n) => Some(n),
            None => definition_at(root, range, from + 1),
        }
    }
}

/// The scope in which the bodies of a file are lowered.
pub open spec fn scope_of(source: SourceView, file: FileId) -> Scope {
    Scope { source, file, text: source.files[file].text@ }
}

/// The body of an item: for a type definition of a file with data whose
/// defining node is found, what that node lowers to.
pub open spec fn spec_item_body(source: SourceView, res: ItemRes) -> Option<ItemBodyView> {
    if source.files.contains_key(res.file) && res.idx < source.items(res.file).items.len() {
        let item = source.items(res.file).items[res.idx as int];
        match item.kind {
            ItemKind::TypeDefinition(_) => match definition_at(
                source.files[res.file].tree.root,
                item.range,
                0,
            ) {
                Some(node) => Some(
                    ItemBodyView {
                        diagnostics: body_of(scope_of(source, res.file), node).diagnostics,
                        kind: body_of(scope_of(source, res.file), node).value,
                    },
                ),
                None => None,
            },
            ItemKind::DirectiveDefinition(_) => None,
        }
    } else {
        None
    }
}

/// The diagnostics of the bodies of the first `upto` items of a file.
pub open spec fn body_diagnostics_upto(source: SourceView, file: FileId, upto: int) -> Seq<
    DiagnosticView,
>
    decreases upto,
{
    if upto <= 0 {
        Seq::empty()
    } else {
        body_diagnostics_upto(source, file, upto - 1) + match spec_item_body(
            source,
            ItemRes { file, idx: (upto - 1) as u32 },
        ) {
            Some(body) => body.diagnostics,
            None => Seq::empty(),
        }
    }
}

/// The order of diagnostics: by the point they start at, then by code.
pub open spec fn diag_le(a: DiagnosticView, b: DiagnosticView) -> bool {
    a.range.start_point.spec_lt(b.range.start_point) || (a.range.start_point
        == b.range.start_point && a.kind.code_number() <= b.kind.code_number())
}

/// A sorted sequence with one more diagnostic, put behind every diagnostic
/// that does not come after it.
pub open spec fn insert_diagnostic(s: Seq<DiagnosticView>, d: DiagnosticView) -> Seq<
    DiagnosticView,
>
    decreases s.len(),
{
    if s.len() == 0 {
        seq![d]
    } else if diag_le(s.last(), d) {
        s.push(d)
    } else {
        insert_diagnostic(s.drop_last(), d).push(s.last())
    }
}

/// The diagnostics in order; those that compare equal keep their order.
pub open spec fn sort_diagnostics(s: Seq<DiagnosticView>) -> Seq<DiagnosticView>
    decreases s.len(),
{
    if s.len() == 0 {
        Seq::empty()
    } else {
        insert_diagnostic(sort_diagnostics(s.drop_last()), s.last())
    }
}

/// Whether each diagnostic comes before or with the next.
pub open spec fn in_order(s: Seq<DiagnosticView>) -> bool {
    forall|i: int, j: int| 0 <= i < j < s.len() ==> diag_le(s[i], s[j])
}

/// The diagnostics of a file before they are put in order: the syntax
/// errors, then what the bodies of its items give rise to, item after item.
pub open spec fn unsorted_diagnostics(source: SourceView, file: FileId) -> Seq<DiagnosticView> {
    errors_in(source.files[file].tree.root) + body_diagnostics_upto(
        source,
        file,
        source.items(file).items.len() as int,
    )
}

/// The diagnostics of a file, in order; none for a file without data.
pub open spec fn spec_file_diagnostics(source: SourceView, file: FileId) -> Seq<DiagnosticView> {
    if source.files.contains_key(file) {
        sort_diagnostics(unsorted_diagnostics(source, file))
    } else {
        Seq::empty()
    }
}

proof fn lemma_insert_keeps(s: Seq<DiagnosticView>, d: DiagnosticView)
    ensures
        insert_diagnostic(s, d).len() == s.len() + 1,
        insert_diagnostic(s, d).to_multiset() == s.to_multiset().insert(d),
        in_order(s) ==> in_order(insert_diagnostic(s, d)),
        forall|x: DiagnosticView|
            (forall|i: int| 0 <= i < s.len() ==> diag_le(s[i], x)) && diag_le(d, x) ==> forall|
                i: int,
            |
                0 <= i < insert_diagnostic(s, d).len() ==> diag_le(
                    #[trigger] insert_diagnostic(s, d)[i],
                    x,
                ),
    decreases s.len(),
{
    broadcast use vstd::seq_lib::group_to_multiset_ensures;

    let r = insert_diagnostic(s, d);
    if s.len() == 0 {
        assert(s =~= Seq::empty());
        assert(r =~= Seq::<DiagnosticView>::empty().push(d));
    } else if diag_le(s.last(), d) {
        if in_order(s) {
            assert forall|i: int, j: int| 0 <= i < j < r.len() implies diag_le(r[i], r[j]) by {
                if j == s.len() {
                    assert(diag_le(s[i], s.last()) || i == s.len() - 1);
                }
            }
        }
    } else {
        let head = s.drop_last();
        let last = s.last();
        lemma_insert_keeps(head, d);
        let inner = insert_diagnostic(head, d);
        assert(r == inner.push(last));
        assert(s =~= head.push(last));
        assert(s.to_multiset() == head.to_multiset().insert(last));
        assert(r.to_multiset() =~= s.to_multiset().insert(d));
        if in_order(s) {
            assert(in_order(head)) by {
                assert forall|i: int, j: int| 0 <= i < j < head.len() implies diag_le(
                    head[i],
                    head[j],
                ) by {
                    assert(head[i] == s[i] && head[j] == s[j]);
                }
            }
            assert(forall|i: int| 0 <= i < head.len() ==> diag_le(head[i], last)) by {
                assert forall|i: int| 0 <= i < head.len() implies diag_le(head[i], last) by {
                    assert(head[i] == s[i]);
                }
            }
            assert(diag_le(d, last));
            assert forall|i: int, j: int| 0 <= i < j < r.len() implies diag_le(r[i], r[j]) by {
                if j == inner.len() {
                    assert(r[i] == inner[i]);
                    assert(diag_le(inner[i], last));
                } else {
                    assert(r[i] == inner[i] && r[j] == inner[j]);
                }
            }
        }
        assert forall|x: DiagnosticView|
            (forall|i: int| 0 <= i < s.len() ==> diag_le(s[i], x)) && diag_le(
                d,
                x,
            ) implies forall|i: int| 0 <= i < r.len() ==> diag_le(#[trigger] r[i], x) by {
            assert forall|i: int| 0 <= i < head.len() implies diag_le(head[i], x) by {
                assert(head[i] == s[i]);
            }
            assert forall|i: int| 0 <= i < r.len() implies diag_le(#[trigger] r[i], x) by {
                if i < inner.len() {
                    assert(r[i] == inner[i]);
                } else {
                    assert(r[i] == s[s.len() - 1]);
                }
            }
        }
    }
}

/// Sorting puts the diagnostics in order and neither drops nor adds any.
pub proof fn lemma_sort_diagnostics(s: Seq<DiagnosticView>)
    ensures
        in_order(sort_diagnostics(s)),
        sort_diagnostics(s).len() == s.len(),
        sort_diagnostics(s).to_multiset() == s.to_multiset(),
    decreases s.len(),
{
    broadcast use vstd::seq_lib::group_to_multiset_ensures;

    if s.len() > 0 {
        lemma_sort_diagnostics(s.drop_last());
        lemma_insert_keeps(sort_diagnostics(s.drop_last()), s.last());
        assert(s =~= s.drop_last().push(s.last()));
    } else {
        assert(s =~= Seq::empty());
    }
}

/// Where a sequence splits into a front whose last diagnostic does not come
/// after `d` and a back that comes after `d` throughout, `d` goes between.
proof fn lemma_insert_position(s: Seq<DiagnosticView>, d: DiagnosticView, k: int)
    requires
        0 <= k <= s.len(),
        k > 0 ==> diag_le(s[k - 1], d),
        forall|i: int| k <= i < s.len() ==> !diag_le(s[i], d),
    ensures
        insert_diagnostic(s, d) == s.insert(k, d),
    decreases s.len() - k,
{
    if s.len() == 0 {
        assert(s.insert(k, d) =~= seq![d]);
    } else if k == s.len() {
        assert(s.insert(k, d) =~= s.push(d));
    } else {
        let head = s.drop_last();
        lemma_insert_position(head, d, k);
        assert(s.insert(k, d) =~= head.insert(k, d).push(s.last()));
    }
}

fn diagnostic_le(a: &Diagnostic, b: &Diagnostic) -> (r: bool)
    ensures
        r == diag_le(a@, b@),
{
    let x = a.range.start_point;
    let y = b.range.start_point;
    x.lt(&y) || (x.row == y.row && x.column == y.column && a.code_number() <= b.code_number())
}

/// Puts diagnostics in order of the point they start at, then of their code.
pub fn sort(diagnostics: &Vec<Diagnostic>) -> (r: Vec<Diagnostic>)
    ensures
        diagnostic_views(r@) == sort_diagnostics(diagnostic_views(diagnostics@)),
{
    let mut out: Vec<Diagnostic> = Vec::new();
    let mut i: usize = 0;
    let ghost input = diagnostic_views(diagnostics@);
    proof {
        assert(input.subrange(0, 0) =~= Seq::empty());
        assert(diagnostic_views(out@) =~= Seq::empty());
    }
    while i < diagnostics.len()
        invariant
            i <= diagnostics@.len(),
            input == diagnostic_views(diagnostics@),
            diagnostic_views(out@) == sort_diagnostics(input.subrange(0, i as int)),
        decreases diagnostics@.len() - i,
    {
        let d = diagnostics[i].clone();
        let mut k: usize = out.len();
        while k > 0 && !diagnostic_le(&out[k - 1], &d)
            invariant
                k <= out@.len(),
                forall|j: int| k <= j < out@.len() ==> !diag_le(diagnostic_views(out@)[j], d@),
            decreases k,
        {
            k -= 1;
        }
        let ghost before = out@;
        proof {
            lemma_insert_position(diagnostic_views(before), d@, k as int);
            assert(input.subrange(0, i + 1).drop_last() =~= input.subrange(0, i as int));
            assert(input.subrange(0, i + 1).last() == d@);
        }
        out.insert(k, d);
        proof {
            assert(diagnostic_views(out@) =~= diagnostic_views(before).insert(k as int, d@));
        }
        i += 1;
    }
    proof {
        assert(input.subrange(0, i as int) =~= input);
    }
    out
}

/// Collects the syntax errors of a subtree.
pub fn collect_errors(node: &SyntaxNode, out: &mut Vec<Diagnostic>)
    ensures
        diagnostic_views(final(out)@) == diagnostic_views(old(out)@) + errors_in(*node),
    decreases node,
{
    let ghost start = diagnostic_views(out@);
    if matches!(node.kind, NodeKind::Error) {
        let ghost before = out@;
        let d = Diagnostic::new(node.range, DiagnosticKind::Syntax);
        out.push(d);
        proof {
            assert(diagnostic_views(out@) =~= diagnostic_views(before).push(d@));
        }
    }
    let ghost own = if node.is_error() {
        seq![DiagnosticView { range: node.range, kind: DiagnosticKindView::Syntax }]
    } else {
        Seq::empty()
    };
    proof {
        assert(diagnostic_views(out@) =~= start + own + errors_in_children(*node, 0));
    }
    let mut i: usize = 0;
    while i < node.children.len()
        invariant
            i <= node.children@.len(),
            diagnostic_views(out@) == start + own + errors_in_children(*node, i as int),
        decreases node.children@.len() - i,
    {
        let ghost prev = diagnostic_views(out@);
        collect_errors(&node.children[i], out);
        proof {
            assert(start + own + errors_in_children(*node, i + 1) =~= prev + errors_in(
                node.children@[i as int],
            ));
        }
        i += 1;
    }
    proof {
        assert(start + own + errors_in_children(*node, node.children@.len() as int) =~= start
            + errors_in(*node));
    }
}

fn find_definition(root: &SyntaxNode, range: Range) -> (r: Option<&SyntaxNode>)
    ensures
        deref_opt(r) == definition_at(*root, range, 0),
{
    let mut i: usize = 0;
    while i < root.children.len()
        invariant
            i <= root.children@.len(),
            definition_at(*root, range, 0) == definition_at(*root, range, i as int),
        decreases root.children@.len() - i,
    {
        let c = &root.children[i];
        if c.named && !c.extra && matches!(c.kind, NodeKind::Item) {
            match c.sole_named_child() {
                Some(def) => {
                    if def.range == range && matches!(
                        def.kind,
                        NodeKind::TypeDefinition | NodeKind::TypeExtension
                    ) {
                        match def.sole_named_child() {
                            Some(n) => {
                                return Some(n);
                            },
                            None => {},
                        }
                    }
                },
                None => {},
            }
        }
        i += 1;
    }
    None
}

/// Lowers the body of an item.
pub fn item_body(db: &Database, res: ItemRes) -> (r: Option<ItemBody>)
    requires
        db.wf(),
    ensures
        match r {
            Some(body) => spec_item_body(db@, res) == Some(body@),
            None => spec_item_body(db@, res) is None,
        },
{
    let data = match db.file_data(res.file) {
        Some(data) => data,
        None => {
            return None;
        },
    };
    let item = match db.item(res) {
        Some(item) => item,
        None => {
            return None;
        },
    };
    match item.kind {
        ItemKind::TypeDefinition(_) => {},
        ItemKind::DirectiveDefinition(_) => {
            return None;
        },
    }
    let node = match find_definition(&data.tree.root, item.range) {
        Some(node) => node,
        None => {
            return None;
        },
    };
    match BodyCtxt::new(db, res.file) {
        Some(ctx) => {
            proof {
                let found = body_of(ctx.scope(), *node).diagnostics;
                assert(ctx.diagnostics() =~= Seq::empty());
                assert(ctx.diagnostics() + found =~= found);
            }
            Some(ctx.lower_typedef(node))
        },
        None => None,
    }
}

/// The diagnostics of a file, in order of the point they start at and then
/// of their code.
pub fn file_diagnostics(db: &Database, file: FileId) -> (r: Vec<Diagnostic>)
    requires
        db.wf(),
    ensures
        diagnostic_views(r@) == spec_file_diagnostics(db@, file),
{
    let data = match db.file_data(file) {
        Some(data) => data,
        None => {
            let out: Vec<Diagnostic> = Vec::new();
            proof {
                assert(diagnostic_views(out@) =~= Seq::empty());
            }
            return out;
        },
    };
    let items = match db.items(file) {
        Some(items) => items,
        None => {
            let out: Vec<Diagnostic> = Vec::new();
            return out;
        },
    };
    let mut all: Vec<Diagnostic> = Vec::new();
    proof {
        assert(diagnostic_views(all@) =~= Seq::empty());
    }
    collect_errors(&data.tree.root, &mut all);
    let ghost errors = errors_in(data.tree.root);
    proof {
        assert(Seq::<DiagnosticView>::empty() + errors =~= errors);
        assert(errors + Seq::empty() =~= errors);
        db.lemma_names_bounded();
        assert(db@.names(file).len() == items@.items.len());
    }
    let n = items.len();
    let mut i: u32 = 0;
    while (i as usize) < n
        invariant
            db.wf(),
            n == db@.items(file).items.len(),
            n <= u32::MAX,
            i <= n,
            diagnostic_views(all@) == errors + body_diagnostics_upto(db@, file, i as int),
        decreases n - i,
    {
        let ghost prev = diagnostic_views(all@);
        match item_body(db, ItemRes { file, idx: i }) {
            Some(body) => {
                let mut found = body.diagnostics;
                let ghost before = all@;
                let ghost added = found@;
                all.append(&mut found);
                proof {
                    assert(diagnostic_views(all@) =~= diagnostic_views(before) + diagnostic_views(
                        added,
                    ));
                    assert(errors + body_diagnostics_upto(db@, file, i + 1) =~= prev
                        + diagnostic_views(added));
                }
            },
            None => {
                proof {
                    assert(errors + body_diagnostics_upto(db@, file, i + 1) =~= prev);
                }
            },
        }
        i += 1;
    }
    sort(&all)
}

} // verus!
