//! The queries an editor asks: the name at a point, where it is defined,
//! what is wrong with a file, and what can be written at a point.

use vstd::prelude::*;
use crate::body::{diagnostic_views, Diagnostic, ItemBody};
use crate::completions::{completion_views, completions, spec_completions, CompletionItem};
use crate::db::{lemma_resolve_below_members, lift, Database, SourceView};
use crate::item_map::positions;
use crate::diagnostics::{
    file_diagnostics, item_body, scope_of, spec_file_diagnostics, spec_item_body,
};
use crate::ir::{FileId, ItemRes, ItemsView, Name, NameView};
use crate::lower::{lower_name, name_from};
use crate::lower_body::{type_of, BodyCtxt, Scope};
use crate::source::{neighbors, strictly_sorted};
use crate::syntax::{NodeKind, Point, SyntaxNode, SyntaxTree};
use crate::text::{spec_with_sigil, with_sigil};
use crate::tokens::{semantic_tokens, spec_semantic_tokens, TokenDelta};

verus! {

/// A stretch of text between two points, the second excluded.
#[derive(Clone, Copy, Debug, PartialEq, Eq, Hash, Structural)]
pub struct Range {
    pub start: Point,
    pub end: Point,
}

impl Range {
    /// `start <= point < end`.
    pub open spec fn spec_contains(self, point: Point) -> bool {
        self.start.spec_le(point) && point.spec_lt(self.end)
    }

    pub fn contains(&self, point: Point) -> (b: bool)
        ensures
            b == self.spec_contains(point),
    {
        self.start.le(&point) && point.lt(&self.end)
    }

    /// The points of a node's extent.
    pub open spec fn spec_of(range: crate::syntax::Range) -> Range {
        Range { start: range.start_point, end: range.end_point }
    }

    pub fn of(range: crate::syntax::Range) -> (r: Range)
        ensures
            r == Range::spec_of(range),
    {
        Range { start: range.start_point, end: range.end_point }
    }
}

/// A point in a file.
#[derive(Clone, Copy, Debug, PartialEq, Eq, Hash, Structural)]
pub struct Position {
    pub file: FileId,
    pub point: Point,
}

impl Position {
    pub fn new(file: FileId, point: Point) -> (p: Position)
        ensures
            p.file == file,
            p.point == point,
    {
        Position { file, point }
    }
}

/// A stretch of text in a file.
#[derive(Clone, Copy, Debug, PartialEq, Eq, Hash, Structural)]
pub struct Location {
    pub file: FileId,
    pub range: Range,
}

impl Location {
    pub fn new(file: FileId, range: Range) -> (l: Location)
        ensures
            l.file == file,
            l.range == range,
    {
        Location { file, range }
    }
}

/// Whether a name under a node of this kind is the name of a directive.
pub open spec fn names_directive(parent: Option<NodeKind>) -> bool {
    parent == Some(NodeKind::Directive) || parent == Some(NodeKind::DirectiveDefinition)
        || parent == Some(NodeKind::DirectiveName)
}

/// The name with the sigil of directives in front of its text.
pub open spec fn sigil_name(name: Option<NameView>) -> Option<NameView> {
    match name {
        Some(n) => Some(NameView { text: spec_with_sigil(n.text), range: n.range }),
        None => None,
    }
}

/// The name that a node under a parent of the given kind spells. A name
/// node spells its text, with the sigil in front where it names a
/// directive; a type node spells the name at the core of the type, under
/// any list and non-null wrappers. Other nodes spell no name.
pub open spec fn name_spelled(
    scope: Scope,
    parent: Option<NodeKind>,
    node: SyntaxNode,
) -> Option<NameView> {
    match node.kind {
        NodeKind::Name => if names_directive(parent) {
            sigil_name(name_from(scope.text, node))
        } else {
            name_from(scope.text, node)
        },
        NodeKind::DirectiveName => sigil_name(name_from(scope.text, node)),
        NodeKind::Type | NodeKind::NamedType | NodeKind::ListType | NodeKind::NonNullType => {
            match type_of(scope, node) {
                Some(ty) => Some(ty.name()),
                None => None,
            }
        },
        _ => None,
    }
}

/// The name at a position: what the smallest named node around the point
/// spells; none in a file without data.
pub open spec fn spec_name_at(source: SourceView, position: Position) -> Option<NameView> {
    if source.files.contains_key(position.file) {
        match source.files[position.file].tree.root.spec_named_node_under(
            None,
            position.point,
        ) {
            Some(found) => name_spelled(scope_of(source, position.file), found.0, found.1),
            None => None,
        }
    } else {
        None
    }
}

/// Where the item that a reference points to bears its name.
pub open spec fn location_of(source: SourceView, res: ItemRes) -> Option<Location> {
    if source.files.contains_key(res.file) && res.idx < source.items(res.file).items.len() {
        match source.items(res.file).items[res.idx as int].name.range {
            Some(range) => Some(Location { file: res.file, range: Range::spec_of(range) }),
            None => None,
        }
    } else {
        None
    }
}

/// The locations of the first `upto` of the given items.
pub open spec fn locations_upto(source: SourceView, found: Seq<ItemRes>, upto: int) -> Seq<
    Location,
>
    decreases upto,
{
    if upto <= 0 {
        Seq::empty()
    } else {
        match location_of(source, found[upto - 1]) {
            Some(l) => locations_upto(source, found, upto - 1).push(l),
            None => locations_upto(source, found, upto - 1),
        }
    }
}

/// Where the name at a position is defined: the name of every item that the
/// name resolves to from the position's file.
pub open spec fn spec_goto_definition(source: SourceView, position: Position) -> Seq<Location> {
    match spec_name_at(source, position) {
        Some(name) => {
            let found = source.resolve(position.file, name.text);
            locations_upto(source, found, found.len() as int)
        },
        None => Seq::empty(),
    }
}

proof fn lemma_locations_come_from(source: SourceView, found: Seq<ItemRes>, upto: int, k: int)
    requires
        0 <= upto <= found.len(),
        0 <= k < locations_upto(source, found, upto).len(),
    ensures
        exists|j: int|
            0 <= j < upto && (#[trigger] found[j]).file == locations_upto(source, found, upto)[k].file,
    decreases upto,
{
    if upto > 0 {
        let prev = locations_upto(source, found, upto - 1);
        if k < prev.len() {
            lemma_locations_come_from(source, found, upto - 1, k);
            let j = choose|j: int|
                0 <= j < upto - 1 && (#[trigger] found[j]).file == prev[k].file;
            assert(0 <= j < upto && found[j].file == locations_upto(source, found, upto)[k].file);
        } else {
            assert(found[upto - 1].file == locations_upto(source, found, upto)[k].file);
        }
    }
}

/// Every definition that goto-definition finds lies in a file of the
/// neighborhood of the position's file.
pub proof fn lemma_goto_definition_stays_in_neighborhood(source: SourceView, position: Position)
    requires
        source.valid(),
    ensures
        forall|k: int|
            0 <= k < spec_goto_definition(source, position).len() ==> neighbors(
                source.projects,
                position.file,
                (#[trigger] spec_goto_definition(source, position)[k]).file,
            ),
{
    source.lemma_names_bounded();
    let all = spec_goto_definition(source, position);
    assert forall|k: int| 0 <= k < all.len() implies neighbors(
        source.projects,
        position.file,
        (#[trigger] all[k]).file,
    ) by {
        let name = spec_name_at(source, position).unwrap();
        let found = source.resolve(position.file, name.text);
        lemma_locations_come_from(source, found, found.len() as int, k);
        let j = choose|j: int| 0 <= j < found.len() && (#[trigger] found[j]).file == all[k].file;
        assert(found.contains(found[j]));
        lemma_resolve_below_members(source, position.file, name.text, 0x1_0000_0000, found[j]);
    }
}

/// Where the file of a position has no neighbor but itself, goto-definition
/// finds definitions in that file only.
pub proof fn lemma_goto_definition_single_file(source: SourceView, position: Position)
    requires
        source.valid(),
        forall|g: FileId| neighbors(source.projects, position.file, g) ==> g == position.file,
    ensures
        forall|k: int|
            0 <= k < spec_goto_definition(source, position).len() ==> (
            #[trigger] spec_goto_definition(source, position)[k]).file == position.file,
{
    lemma_goto_definition_stays_in_neighborhood(source, position);
}

/// A read-only view of the database for the length of one request.
pub struct Snapshot<'db> {
    db: &'db Database,
}

impl<'db> View for Snapshot<'db> {
    type V = SourceView;

    closed spec fn view(&self) -> SourceView {
        self.db@
    }
}

impl Database {
    /// A view of the database as it is now. While the view lives, the
    /// database cannot be written to.
    pub fn snapshot(&self) -> (s: Snapshot<'_>)
        requires
            self.wf(),
        ensures
            s.wf(),
            s@ == self@,
            s.spec_revision() == self.spec_revision(),
    {
        Snapshot { db: self }
    }
}

impl<'db> Snapshot<'db> {
    pub closed spec fn wf(&self) -> bool {
        self.db.wf()
    }

    /// The inputs that a view shows are valid.
    pub proof fn lemma_valid(self)
        requires
            self.wf(),
        ensures
            self@.valid(),
    {
        self.db.lemma_valid();
    }

    /// The revision that the view is pinned to.
    pub closed spec fn spec_revision(&self) -> u64 {
        self.db.spec_revision()
    }

    /// The revision that the view is pinned to.
    pub fn revision(&self) -> (n: u64)
        ensures
            n == self.spec_revision(),
    {
        self.db.revision()
    }

    /// The syntax tree of a file, if it has data.
    pub fn file_syntax_tree(&self, file: FileId) -> (r: Option<&SyntaxTree>)
        requires
            self.wf(),
        ensures
            match r {
                Some(tree) => self@.files.contains_key(file) && *tree == self@.files[file].tree,
                None => !self@.files.contains_key(file),
            },
    {
        match self.db.file_data(file) {
            Some(data) => Some(&data.tree),
            None => None,
        }
    }

    /// The name at a position.
    pub fn name_at(&self, position: Position) -> (r: Option<Name>)
        requires
            self.wf(),
        ensures
            match r {
                Some(name) => spec_name_at(self@, position) == Some(name@),
                None => spec_name_at(self@, position) is None,
            },
    {
        let data = match self.db.file_data(position.file) {
            Some(data) => data,
            None => {
                return None;
            },
        };
        let (parent, node) = match data.tree.root.named_node_under(None, position.point) {
            Some(found) => found,
            None => {
                return None;
            },
        };
        match node.kind {
            NodeKind::Name => match lower_name(data.text.as_str(), node) {
                Some(name) => if matches!(
                    parent,
                    Some(NodeKind::Directive)
                        | Some(NodeKind::DirectiveDefinition)
                        | Some(NodeKind::DirectiveName)
                ) {
                    Some(Name { text: with_sigil(name.as_str()), range: name.range })
                } else {
                    Some(name)
                },
                None => None,
            },
            NodeKind::DirectiveName => match lower_name(data.text.as_str(), node) {
                Some(name) => Some(Name { text: with_sigil(name.as_str()), range: name.range }),
                None => None,
            },
            NodeKind::Type | NodeKind::NamedType | NodeKind::ListType | NodeKind::NonNullType => {
                match BodyCtxt::new(self.db, position.file) {
                    Some(ctx) => {
                        let mut ctx = ctx;
                        match ctx.lower_type(node) {
                            Some(ty) => Some(ty.name()),
                            None => None,
                        }
                    },
                    None => None,
                }
            },
            _ => None,
        }
    }

    /// Where the name at a position is defined.
    pub fn goto_definition(&self, position: Position) -> (r: Vec<Location>)
        requires
            self.wf(),
        ensures
            r@ == spec_goto_definition(self@, position),
    {
        let name = match self.name_at(position) {
            Some(name) => name,
            None => {
                return Vec::new();
            },
        };
        let found = self.db.resolve(position.file, &name);
        let items = found.as_slice();
        let mut out: Vec<Location> = Vec::new();
        let mut i: usize = 0;
        while i < items.len()
            invariant
                self.wf(),
                i <= items@.len(),
                out@ == locations_upto(self@, items@, i as int),
            decreases items@.len() - i,
        {
            let res = items[i];
            match self.db.item(res) {
                Some(item) => match item.name.range {
                    Some(range) => {
                        out.push(Location::new(res.file, Range::of(range)));
                    },
                    None => {},
                },
                None => {},
            }
            i += 1;
        }
        out
    }

    /// What can be written at a point of a file.
    pub fn completions(&self, file: FileId, at: Point) -> (r: Vec<CompletionItem>)
        requires
            self.wf(),
        ensures
            completion_views(r@) == spec_completions(self@, file, at),
    {
        completions(self.db, file, at)
    }
}

/// Where those of the first `upto` items of a file that bear the name bear it.
pub open spec fn bearers_upto(items: ItemsView, file: FileId, name: Seq<char>, upto: int) -> Seq<
    Location,
>
    decreases upto,
{
    if upto <= 0 {
        Seq::empty()
    } else {
        let item = items.items[upto - 1];
        let prev = bearers_upto(items, file, name, upto - 1);
        if item.name.text == name {
            match item.name.range {
                Some(range) => prev.push(Location { file, range: Range::spec_of(range) }),
                None => prev,
            }
        } else {
            prev
        }
    }
}

/// Where the items of one file bear the name; nowhere in a file without data.
pub open spec fn bearers_in(source: SourceView, file: FileId, name: Seq<char>) -> Seq<Location> {
    if source.files.contains_key(file) {
        bearers_upto(source.items(file), file, name, source.items(file).items.len() as int)
    } else {
        Seq::empty()
    }
}

/// Where the items of the neighborhood bear the name, among the files with
/// an id below `bound`, file after file in rising order of ids.
pub open spec fn references_below(source: SourceView, file: FileId, name: Seq<char>, bound: int) -> Seq<
    Location,
>
    decreases bound,
{
    if bound <= 0 {
        Seq::empty()
    } else {
        let g = FileId((bound - 1) as u32);
        let below = references_below(source, file, name, bound - 1);
        if neighbors(source.projects, file, g) {
            below + bearers_in(source, g, name)
        } else {
            below
        }
    }
}

/// The references to the name at a position: every place in the
/// neighborhood of the position's file where an item bears that name.
pub open spec fn spec_references(source: SourceView, position: Position) -> Seq<Location> {
    match spec_name_at(source, position) {
        Some(name) => references_below(source, position.file, name.text, 0x1_0000_0000),
        None => Seq::empty(),
    }
}

proof fn lemma_references_gap(source: SourceView, file: FileId, name: Seq<char>, lo: int, hi: int)
    requires
        0 <= lo <= hi <= 0x1_0000_0000,
        forall|g: FileId| lo <= g.0 < hi ==> !neighbors(source.projects, file, g),
    ensures
        references_below(source, file, name, hi) == references_below(source, file, name, lo),
    decreases hi - lo,
{
    if lo < hi {
        lemma_references_gap(source, file, name, lo, hi - 1);
        let g = FileId((hi - 1) as u32);
        assert(lo <= g.0 < hi);
    }
}

proof fn lemma_locations_of_concat(source: SourceView, a: Seq<ItemRes>, b: Seq<ItemRes>, upto: int)
    requires
        0 <= upto <= b.len(),
    ensures
        locations_upto(source, a + b, a.len() + upto) == locations_upto(
            source,
            a,
            a.len() as int,
        ) + locations_upto(source, b, upto),
    decreases upto,
{
    let all = a + b;
    if upto > 0 {
        lemma_locations_of_concat(source, a, b, upto - 1);
        assert(all[a.len() + upto - 1] == b[upto - 1]);
        assert(locations_upto(source, a, a.len() as int) + locations_upto(source, b, upto - 1).push(
            location_of(source, b[upto - 1]).unwrap(),
        ) =~= (locations_upto(source, a, a.len() as int) + locations_upto(
            source,
            b,
            upto - 1,
        )).push(location_of(source, b[upto - 1]).unwrap()));
    } else {
        lemma_locations_prefix(source, all, a, a.len() as int);
        assert(locations_upto(source, a, a.len() as int) + Seq::<Location>::empty()
            =~= locations_upto(source, a, a.len() as int));
    }
}

proof fn lemma_locations_prefix(source: SourceView, all: Seq<ItemRes>, a: Seq<ItemRes>, upto: int)
    requires
        0 <= upto <= a.len() <= all.len(),
        forall|i: int| 0 <= i < a.len() ==> all[i] == a[i],
    ensures
        locations_upto(source, all, upto) == locations_upto(source, a, upto),
    decreases upto,
{
    if upto > 0 {
        lemma_locations_prefix(source, all, a, upto - 1);
    }
}

proof fn lemma_locations_of_definitions(source: SourceView, file: FileId, name: Seq<char>, upto: int)
    requires
        source.files.contains_key(file),
        0 <= upto <= source.items(file).items.len() <= u32::MAX,
    ensures
        positions(source.names(file), name, upto).len() <= upto,
        locations_upto(
            source,
            lift(file, positions(source.names(file), name, upto)),
            positions(source.names(file), name, upto).len() as int,
        ) == bearers_upto(source.items(file), file, name, upto),
    decreases upto,
{
    if upto > 0 {
        lemma_locations_of_definitions(source, file, name, upto - 1);
        let names = source.names(file);
        let prev = positions(names, name, upto - 1);
        let items = source.items(file);
        assert(names[upto - 1] == items.items[upto - 1].name.text);
        if names[upto - 1] == name {
            let cur = prev.push((upto - 1) as u32);
            lemma_locations_prefix(source, lift(file, cur), lift(file, prev), prev.len() as int);
            assert(lift(file, cur)[prev.len() as int] == ItemRes { file, idx: (upto - 1) as u32 });
        }
    }
}

proof fn lemma_references_are_definitions(
    source: SourceView,
    file: FileId,
    name: Seq<char>,
    bound: int,
)
    requires
        source.valid(),
        0 <= bound <= 0x1_0000_0000,
    ensures
        references_below(source, file, name, bound) == locations_upto(
            source,
            source.resolve_below(file, name, bound),
            source.resolve_below(file, name, bound).len() as int,
        ),
    decreases bound,
{
    if bound > 0 {
        lemma_references_are_definitions(source, file, name, bound - 1);
        let g = FileId((bound - 1) as u32);
        if neighbors(source.projects, file, g) {
            let below = source.resolve_below(file, name, bound - 1);
            let here = source.definitions_in(g, name);
            lemma_locations_of_concat(source, below, here, here.len() as int);
            source.lemma_names_bounded();
            if source.files.contains_key(g) {
                lemma_locations_of_definitions(
                    source,
                    g,
                    name,
                    source.items(g).items.len() as int,
                );
            }
        }
    }
}

/// References and goto-definition agree: the places where the items of the
/// neighborhood bear a name are the places of the items that the name
/// resolves to.
pub proof fn lemma_references_agree_with_goto_definition(source: SourceView, position: Position)
    requires
        source.valid(),
    ensures
        spec_references(source, position) == spec_goto_definition(source, position),
{
    match spec_name_at(source, position) {
        Some(name) => {
            lemma_references_are_definitions(source, position.file, name.text, 0x1_0000_0000);
        },
        None => {},
    }
}

impl<'db> Snapshot<'db> {
    /// The references to the name at a position.
    pub fn references(&self, position: Position) -> (r: Vec<Location>)
        requires
            self.wf(),
        ensures
            r@ == spec_references(self@, position),
    {
        let name = match self.name_at(position) {
            Some(name) => name,
            None => {
                return Vec::new();
            },
        };
        let file = position.file;
        let hood = self.db.project_of(file);
        let mut out: Vec<Location> = Vec::new();
        let mut i: usize = 0;
        let ghost mut lo: int = 0;
        let ghost source = self.db@;
        while i < hood.len()
            invariant
                self.wf(),
                source == self.db@,
                i <= hood@.len(),
                strictly_sorted(hood@),
                forall|g: FileId| hood@.contains(g) <==> neighbors(source.projects, file, g),
                0 <= lo <= 0x1_0000_0000,
                i > 0 ==> lo == hood@[i - 1].0 + 1,
                i == 0 ==> lo == 0,
                out@ == references_below(source, file, name@.text, lo),
            decreases hood@.len() - i,
        {
            let g = hood[i];
            proof {
                assert forall|h: FileId| lo <= h.0 < g.0 implies !neighbors(
                    source.projects,
                    file,
                    h,
                ) by {
                    if hood@.contains(h) {
                        let j = choose|j: int| 0 <= j < hood@.len() && hood@[j] == h;
                        if j < i {
                            if j < i - 1 {
                                assert(hood@[j].0 < hood@[i - 1].0);
                            }
                        } else if j > i {
                            assert(hood@[i as int].0 < hood@[j].0);
                        }
                    }
                }
                lemma_references_gap(source, file, name@.text, lo, g.0 as int);
                assert(hood@.contains(g));
                assert(FileId(((g.0 + 1) - 1) as u32) == g);
            }
            match self.db.items(g) {
                Some(items) => {
                    proof {
                        self.db.lemma_names_bounded();
                        assert(source.names(g).len() == items@.items.len());
                    }
                    let n = items.len();
                    let mut k: u32 = 0;
                    let ghost start = out@;
                    proof {
                        assert(start + bearers_upto(items@, g, name@.text, 0) =~= start);
                    }
                    while (k as usize) < n
                        invariant
                            n == items@.items.len(),
                            n <= u32::MAX,
                            k <= n,
                            out@ == start + bearers_upto(items@, g, name@.text, k as int),
                        decreases n - k,
                    {
                        match items.item(k) {
                            Some(item) => {
                                if item.name.same(&name) {
                                    match item.name.range {
                                        Some(range) => {
                                            let l = Location::new(g, Range::of(range));
                                            out.push(l);
                                            proof {
                                                assert(start + bearers_upto(
                                                    items@,
                                                    g,
                                                    name@.text,
                                                    k + 1,
                                                ) =~= (start + bearers_upto(
                                                    items@,
                                                    g,
                                                    name@.text,
                                                    k as int,
                                                )).push(l));
                                            }
                                        },
                                        None => {},
                                    }
                                }
                            },
                            None => {},
                        }
                        k += 1;
                    }
                },
                None => {
                    proof {
                        assert(out@ + Seq::empty() =~= out@);
                    }
                },
            }
            proof {
                lo = g.0 + 1;
            }
            i += 1;
        }
        proof {
            assert forall|h: FileId| lo <= h.0 < 0x1_0000_0000 implies !neighbors(
                source.projects,
                file,
                h,
            ) by {
                if hood@.contains(h) {
                    let j = choose|j: int| 0 <= j < hood@.len() && hood@[j] == h;
                    if j < i - 1 {
                        assert(hood@[j].0 < hood@[i - 1].0);
                    }
                }
            }
            lemma_references_gap(source, file, name@.text, lo, 0x1_0000_0000);
        }
        out
    }

    /// The body of an item.
    pub fn item_body(&self, res: ItemRes) -> (r: Option<ItemBody>)
        requires
            self.wf(),
        ensures
            match r {
                Some(body) => spec_item_body(self@, res) == Some(body@),
                None => spec_item_body(self@, res) is None,
            },
    {
        item_body(self.db, res)
    }

    /// What is wrong with a file, in order of place and then of code.
    pub fn file_diagnostics(&self, file: FileId) -> (r: Vec<Diagnostic>)
        requires
            self.wf(),
        ensures
            diagnostic_views(r@) == spec_file_diagnostics(self@, file),
    {
        file_diagnostics(self.db, file)
    }

    /// The semantic tokens of a file; none for a file without data.
    pub fn semantic_tokens(&self, file: FileId) -> (r: Vec<TokenDelta>)
        requires
            self.wf(),
        ensures
            r@ == if self@.files.contains_key(file) {
                spec_semantic_tokens(self@.files[file].tree.root)
            } else {
                Seq::empty()
            },
    {
        match self.db.file_data(file) {
            Some(data) => semantic_tokens(&data.tree.root),
            None => Vec::new(),
        }
    }
}

} // verus!
