//! Completions: what can be written at a point of a file.
//!
//! The point's surroundings decide the context; the items of the file's
//! neighborhood that fit the context are offered.

use vstd::prelude::*;
use crate::db::{Database, SourceView};
use crate::ir::{
    DirectiveLocation, DirectiveLocations, FileId, ItemKind, ItemView, Items, ItemsView,
    TypeDefinitionKind,
};
use crate::source::{neighbors, strictly_sorted};
use crate::syntax::{NodeKind, Point, SyntaxNode};

verus! {

/// What a completion stands for.
#[derive(Clone, Copy, Debug, PartialEq, Eq, Structural)]
pub enum CompletionItemKind {
    Object,
    InputObject,
    Interface,
    Enum,
    Scalar,
    Union,
    Keyword,
    Directive(DirectiveLocations),
}

/// One completion: the text to insert and what it stands for.
#[derive(Clone, Debug, PartialEq, Eq)]
pub struct CompletionItem {
    pub label: String,
    pub kind: CompletionItemKind,
}

pub struct CompletionItemView {
    pub label: Seq<char>,
    pub kind: CompletionItemKind,
}

impl View for CompletionItem {
    type V = CompletionItemView;

    open spec fn view(&self) -> CompletionItemView {
        CompletionItemView { label: self.label@, kind: self.kind }
    }
}

/// The views of a sequence of completions.
pub open spec fn completion_views(s: Seq<CompletionItem>) -> Seq<CompletionItemView> {
    s.map_values(|c: CompletionItem| c@)
}

/// Where in a document a point lies, as far as completions go.
#[derive(Clone, Copy, Debug, PartialEq, Eq, Structural)]
pub enum Context {
    Document,
    InputField,
    Field,
    UnionMembers,
    Directive(DirectiveLocation),
}

/// The context that a node of the given kind puts a point in, if any.
pub open spec fn context_of(kind: NodeKind) -> Option<Context> {
    match kind {
        NodeKind::ObjectTypeDefinition | NodeKind::ObjectTypeExtension => Some(
            Context::Directive(DirectiveLocation::Object),
        ),
        NodeKind::EnumTypeDefinition | NodeKind::EnumTypeExtension => Some(
            Context::Directive(DirectiveLocation::Enum),
        ),
        NodeKind::UnionTypeDefinition | NodeKind::UnionTypeExtension => Some(
            Context::Directive(DirectiveLocation::Union),
        ),
        NodeKind::InterfaceTypeDefinition | NodeKind::InterfaceTypeExtension => Some(
            Context::Directive(DirectiveLocation::Interface),
        ),
        NodeKind::ScalarTypeDefinition | NodeKind::ScalarTypeExtension => Some(
            Context::Directive(DirectiveLocation::Scalar),
        ),
        NodeKind::InputObjectTypeDefinition | NodeKind::InputObjectTypeExtension => Some(
            Context::Directive(DirectiveLocation::InputObject),
        ),
        NodeKind::EnumValuesDefinition | NodeKind::EnumValueDefinition | NodeKind::EnumValue => Some(
            Context::Directive(DirectiveLocation::EnumValue),
        ),
        NodeKind::InputFieldsDefinition | NodeKind::InputValueDefinition => Some(
            Context::InputField,
        ),
        NodeKind::FieldsDefinition | NodeKind::FieldDefinition => Some(Context::Field),
        NodeKind::UnionMemberTypes => Some(Context::UnionMembers),
        _ => None,
    }
}

/// The context that a single point decides: that of the kind of the
/// smallest named node around it. A point that lies in no named node, or
/// in one of no listed kind, decides nothing.
pub open spec fn context_at(root: SyntaxNode, at: Point) -> Option<Context> {
    match root.spec_named_node_at(at) {
        Some(node) => context_of(node.kind),
        None => None,
    }
}

/// The context of a point, looking at the point and then at up to
/// `tries - 1` columns to its left, as far as the line goes: the context
/// that the first of these columns decides. Where none of them decides, it
/// is the document.
pub open spec fn context_within(root: SyntaxNode, at: Point, tries: nat) -> Context
    decreases tries,
{
    if tries == 0 {
        Context::Document
    } else {
        match context_at(root, at) {
            Some(context) => context,
            None => if at.column == 0 {
                Context::Document
            } else {
                context_within(
                    root,
                    Point { row: at.row, column: (at.column - 1) as u32 },
                    (tries - 1) as nat,
                )
            },
        }
    }
}

/// The context of a point in a tree. The search window is ten columns wide.
pub open spec fn spec_infer_context(root: SyntaxNode, at: Point) -> Context {
    context_within(root, at, 10)
}

/// What an item stands for as a completion. An item that points outside the
/// arena of its kind stands for nothing.
pub open spec fn kind_of_item(items: ItemsView, item: ItemView) -> Option<CompletionItemKind> {
    match item.kind {
        ItemKind::TypeDefinition(k) => if k < items.typedefs.len() {
            Some(
                match items.typedefs[k as int].kind {
                    TypeDefinitionKind::Object => CompletionItemKind::Object,
                    TypeDefinitionKind::Input => CompletionItemKind::InputObject,
                    TypeDefinitionKind::Interface => CompletionItemKind::Interface,
                    TypeDefinitionKind::Scalar => CompletionItemKind::Scalar,
                    TypeDefinitionKind::Enum => CompletionItemKind::Enum,
                    TypeDefinitionKind::Union => CompletionItemKind::Union,
                },
            )
        } else {
            None
        },
        ItemKind::DirectiveDefinition(k) => if k < items.directives.len() {
            Some(CompletionItemKind::Directive(items.directives[k as int].locations))
        } else {
            None
        },
    }
}

/// The completions that the first `upto` items of a file stand for.
pub open spec fn file_candidates(items: ItemsView, upto: int) -> Seq<CompletionItemView>
    decreases upto,
{
    if upto <= 0 {
        Seq::empty()
    } else {
        let prev = file_candidates(items, upto - 1);
        let item = items.items[upto - 1];
        match kind_of_item(items, item) {
            Some(kind) => prev.push(CompletionItemView { label: item.name.text, kind }),
            None => prev,
        }
    }
}

/// The completions of one file of the database; none for a file without data.
pub open spec fn candidates_in(source: SourceView, file: FileId) -> Seq<CompletionItemView> {
    if source.files.contains_key(file) {
        file_candidates(source.items(file), source.items(file).items.len() as int)
    } else {
        Seq::empty()
    }
}

/// The completions that the items of the neighborhood stand for, among the
/// files with an id below `bound`, file after file in rising order of ids.
pub open spec fn candidates_below(source: SourceView, file: FileId, bound: int) -> Seq<
    CompletionItemView,
>
    decreases bound,
{
    if bound <= 0 {
        Seq::empty()
    } else {
        let g = FileId((bound - 1) as u32);
        let below = candidates_below(source, file, bound - 1);
        if neighbors(source.projects, file, g) {
            below + candidates_in(source, g)
        } else {
            below
        }
    }
}

/// Every item of the neighborhood as a completion.
pub open spec fn candidates(source: SourceView, file: FileId) -> Seq<CompletionItemView> {
    candidates_below(source, file, 0x1_0000_0000)
}

/// Whether a completion of the given kind fits the context. Fields take
/// output types, input fields take input types, unions take objects, and a
/// directive fits wherever its locations allow it. The document takes none
/// of the items.
pub open spec fn eligible(context: Context, kind: CompletionItemKind) -> bool {
    match context {
        Context::Document => false,
        Context::Field => match kind {
            CompletionItemKind::Directive(locations) => locations@.contains(
                DirectiveLocation::FieldDefinition,
            ),
            CompletionItemKind::Object
            | CompletionItemKind::Interface
            | CompletionItemKind::Enum
            | CompletionItemKind::Scalar
            | CompletionItemKind::Union => true,
            CompletionItemKind::InputObject | CompletionItemKind::Keyword => false,
        },
        Context::InputField => match kind {
            CompletionItemKind::Directive(locations) => locations@.contains(
                DirectiveLocation::InputFieldDefinition,
            ),
            CompletionItemKind::InputObject
            | CompletionItemKind::Enum
            | CompletionItemKind::Scalar => true,
            CompletionItemKind::Object
            | CompletionItemKind::Interface
            | CompletionItemKind::Union
            | CompletionItemKind::Keyword => false,
        },
        Context::UnionMembers => kind == CompletionItemKind::Object,
        Context::Directive(location) => match kind {
            CompletionItemKind::Directive(locations) => locations@.contains(location),
            _ => false,
        },
    }
}

/// Those of the first `upto` completions that fit the context, in order.
pub open spec fn fitting(all: Seq<CompletionItemView>, context: Context, upto: int) -> Seq<
    CompletionItemView,
>
    decreases upto,
{
    if upto <= 0 {
        Seq::empty()
    } else if eligible(context, all[upto - 1].kind) {
        fitting(all, context, upto - 1).push(all[upto - 1])
    } else {
        fitting(all, context, upto - 1)
    }
}

/// The keywords that can start a definition.
pub open spec fn keywords() -> Seq<CompletionItemView> {
    seq![
        CompletionItemView { label: "scalar"@, kind: CompletionItemKind::Keyword },
        CompletionItemView { label: "enum"@, kind: CompletionItemKind::Keyword },
        CompletionItemView { label: "struct"@, kind: CompletionItemKind::Keyword },
        CompletionItemView { label: "union"@, kind: CompletionItemKind::Keyword },
        CompletionItemView { label: "interface"@, kind: CompletionItemKind::Keyword },
        CompletionItemView { label: "directive"@, kind: CompletionItemKind::Keyword },
        CompletionItemView { label: "input"@, kind: CompletionItemKind::Keyword },
    ]
}

/// The completions in a context: the keywords in the document, and elsewhere
/// the items of the neighborhood that fit.
pub open spec fn completions_in(source: SourceView, file: FileId, context: Context) -> Seq<
    CompletionItemView,
> {
    match context {
        Context::Document => keywords(),
        _ => fitting(
            candidates(source, file),
            context,
            candidates(source, file).len() as int,
        ),
    }
}

/// The completions at a point of a file. A file without data is all document.
pub open spec fn spec_completions(source: SourceView, file: FileId, at: Point) -> Seq<
    CompletionItemView,
> {
    let context = if source.files.contains_key(file) {
        spec_infer_context(source.files[file].tree.root, at)
    } else {
        Context::Document
    };
    completions_in(source, file, context)
}

/// Every completion that is kept fits the context.
pub proof fn lemma_fitting_is_eligible(
    all: Seq<CompletionItemView>,
    context: Context,
    upto: int,
    k: int,
)
    requires
        0 <= k < fitting(all, context, upto).len(),
    ensures
        eligible(context, fitting(all, context, upto)[k].kind),
    decreases upto,
{
    if upto > 0 {
        let prev = fitting(all, context, upto - 1);
        if k < prev.len() {
            lemma_fitting_is_eligible(all, context, upto - 1, k);
        }
    }
}

/// Keywords are offered in the document only, and a directive is offered
/// in the context of a location only where its locations hold that one.
pub proof fn lemma_completions_are_gated(
    source: SourceView,
    file: FileId,
    context: Context,
    k: int,
)
    requires
        0 <= k < completions_in(source, file, context).len(),
    ensures
        completions_in(source, file, context)[k].kind == CompletionItemKind::Keyword
            <==> context == Context::Document,
        context matches Context::Directive(location) ==> (completions_in(
            source,
            file,
            context,
        )[k].kind matches CompletionItemKind::Directive(locations) && locations@.contains(
            location,
        )),
{
    match context {
        Context::Document => {},
        _ => {
            let all = candidates(source, file);
            lemma_fitting_is_eligible(all, context, all.len() as int, k);
        },
    }
}

proof fn lemma_candidates_gap(source: SourceView, file: FileId, lo: int, hi: int)
    requires
        0 <= lo <= hi <= 0x1_0000_0000,
        forall|g: FileId| lo <= g.0 < hi ==> !neighbors(source.projects, file, g),
    ensures
        candidates_below(source, file, hi) == candidates_below(source, file, lo),
    decreases hi - lo,
{
    if lo < hi {
        lemma_candidates_gap(source, file, lo, hi - 1);
        let g = FileId((hi - 1) as u32);
        assert(lo <= g.0 < hi);
    }
}

fn context_of_kind(kind: NodeKind) -> (r: Option<Context>)
    ensures
        r == context_of(kind),
{
    match kind {
        NodeKind::ObjectTypeDefinition | NodeKind::ObjectTypeExtension => Some(
            Context::Directive(DirectiveLocation::Object),
        ),
        NodeKind::EnumTypeDefinition | NodeKind::EnumTypeExtension => Some(
            Context::Directive(DirectiveLocation::Enum),
        ),
        NodeKind::UnionTypeDefinition | NodeKind::UnionTypeExtension => Some(
            Context::Directive(DirectiveLocation::Union),
        ),
        NodeKind::InterfaceTypeDefinition | NodeKind::InterfaceTypeExtension => Some(
            Context::Directive(DirectiveLocation::Interface),
        ),
        NodeKind::ScalarTypeDefinition | NodeKind::ScalarTypeExtension => Some(
            Context::Directive(DirectiveLocation::Scalar),
        ),
        NodeKind::InputObjectTypeDefinition | NodeKind::InputObjectTypeExtension => Some(
            Context::Directive(DirectiveLocation::InputObject),
        ),
        NodeKind::EnumValuesDefinition | NodeKind::EnumValueDefinition | NodeKind::EnumValue => Some(
            Context::Directive(DirectiveLocation::EnumValue),
        ),
        NodeKind::InputFieldsDefinition | NodeKind::InputValueDefinition => Some(
            Context::InputField,
        ),
        NodeKind::FieldsDefinition | NodeKind::FieldDefinition => Some(Context::Field),
        NodeKind::UnionMemberTypes => Some(Context::UnionMembers),
        _ => None,
    }
}

/// Infers the context of a point in a tree.
pub fn infer_context(root: &SyntaxNode, at: Point) -> (context: Context)
    ensures
        context == spec_infer_context(*root, at),
{
    let mut cur = at;
    let mut tries: u32 = 10;
    while tries > 0
        invariant
            tries <= 10,
            context_within(*root, at, 10) == context_within(*root, cur, tries as nat),
        decreases tries,
    {
        let decided = match root.named_node_at(cur) {
            Some(node) => context_of_kind(node.kind),
            None => None,
        };
        match decided {
            Some(context) => {
                return context;
            },
            None => {
                if cur.column == 0 {
                    return Context::Document;
                }
                cur = Point { row: cur.row, column: cur.column - 1 };
            },
        }
        tries -= 1;
    }
    Context::Document
}

fn completion_kind(kind: TypeDefinitionKind) -> (r: CompletionItemKind)
    ensures
        r == match kind {
            TypeDefinitionKind::Object => CompletionItemKind::Object,
            TypeDefinitionKind::Input => CompletionItemKind::InputObject,
            TypeDefinitionKind::Interface => CompletionItemKind::Interface,
            TypeDefinitionKind::Scalar => CompletionItemKind::Scalar,
            TypeDefinitionKind::Enum => CompletionItemKind::Enum,
            TypeDefinitionKind::Union => CompletionItemKind::Union,
        },
{
    match kind {
        TypeDefinitionKind::Object => CompletionItemKind::Object,
        TypeDefinitionKind::Input => CompletionItemKind::InputObject,
        TypeDefinitionKind::Interface => CompletionItemKind::Interface,
        TypeDefinitionKind::Scalar => CompletionItemKind::Scalar,
        TypeDefinitionKind::Enum => CompletionItemKind::Enum,
        TypeDefinitionKind::Union => CompletionItemKind::Union,
    }
}

/// Whether a completion of the given kind fits the context.
pub fn is_eligible(context: Context, kind: CompletionItemKind) -> (b: bool)
    ensures
        b == eligible(context, kind),
{
    match context {
        Context::Document => false,
        Context::Field => match kind {
            CompletionItemKind::Directive(locations) => locations.contains(
                DirectiveLocation::FieldDefinition,
            ),
            CompletionItemKind::Object
            | CompletionItemKind::Interface
            | CompletionItemKind::Enum
            | CompletionItemKind::Scalar
            | CompletionItemKind::Union => true,
            CompletionItemKind::InputObject | CompletionItemKind::Keyword => false,
        },
        Context::InputField => match kind {
            CompletionItemKind::Directive(locations) => locations.contains(
                DirectiveLocation::InputFieldDefinition,
            ),
            CompletionItemKind::InputObject
            | CompletionItemKind::Enum
            | CompletionItemKind::Scalar => true,
            CompletionItemKind::Object
            | CompletionItemKind::Interface
            | CompletionItemKind::Union
            | CompletionItemKind::Keyword => false,
        },
        Context::UnionMembers => matches!(kind, CompletionItemKind::Object),
        Context::Directive(location) => match kind {
            CompletionItemKind::Directive(locations) => locations.contains(location),
            _ => false,
        },
    }
}

/// The state of completing at one point: where to look, the context found
/// there, and the completions gathered so far.
pub struct CompletionCtxt<'s> {
    db: &'s Database,
    file: FileId,
    context: Context,
    completions: Vec<CompletionItem>,
}

impl<'s> CompletionCtxt<'s> {
    pub closed spec fn source(&self) -> SourceView {
        self.db@
    }

    pub closed spec fn file(&self) -> FileId {
        self.file
    }

    pub closed spec fn context(&self) -> Context {
        self.context
    }

    /// The completions gathered so far.
    pub closed spec fn gathered(&self) -> Seq<CompletionItemView> {
        completion_views(self.completions@)
    }

    pub closed spec fn wf(&self) -> bool {
        self.db.wf()
    }

    /// This context is `before` with the given completions added.
    pub open spec fn follows(
        &self,
        before: &CompletionCtxt<'s>,
        added: Seq<CompletionItemView>,
    ) -> bool {
        &&& self.wf()
        &&& self.source() == before.source()
        &&& self.file() == before.file()
        &&& self.context() == before.context()
        &&& self.gathered() == before.gathered() + added
    }

    /// The context of a point of a file; the document for a file without data.
    pub fn infer_context(db: &Database, file: FileId, at: Point) -> (context: Context)
        requires
            db.wf(),
        ensures
            context == if db@.files.contains_key(file) {
                spec_infer_context(db@.files[file].tree.root, at)
            } else {
                Context::Document
            },
    {
        match db.file_data(file) {
            Some(data) => infer_context(&data.tree.root, at),
            None => Context::Document,
        }
    }

    pub fn new(db: &'s Database, file: FileId, at: Point) -> (ctx: CompletionCtxt<'s>)
        requires
            db.wf(),
        ensures
            ctx.wf(),
            ctx.source() == db@,
            ctx.file() == file,
            ctx.context() == if db@.files.contains_key(file) {
                spec_infer_context(db@.files[file].tree.root, at)
            } else {
                Context::Document
            },
            ctx.gathered().len() == 0,
    {
        let context = Self::infer_context(db, file, at);
        CompletionCtxt { db, file, context, completions: Vec::new() }
    }

    /// The completions that fit the context.
    pub fn completions(self) -> (r: Vec<CompletionItem>)
        requires
            self.wf(),
        ensures
            completion_views(r@) == self.gathered() + completions_in(
                self.source(),
                self.file(),
                self.context(),
            ),
    {
        let mut ctx = self;
        match ctx.context {
            Context::Field => ctx.complete_fields(),
            Context::Document => ctx.complete_document(),
            Context::UnionMembers => ctx.complete_union_member(),
            Context::InputField => ctx.complete_input_fields(),
            Context::Directive(location) => ctx.complete_directives(location),
        }
        ctx.completions
    }

    fn push(&mut self, label: &str, kind: CompletionItemKind)
        requires
            old(self).wf(),
        ensures
            final(self).follows(old(self), seq![CompletionItemView { label: label@, kind }]),
    {
        let ghost before = self.completions@;
        let item = CompletionItem { label: label.to_owned(), kind };
        self.completions.push(item);
        proof {
            assert(completion_views(self.completions@) =~= completion_views(before) + seq![item@]);
        }
    }

    fn complete_document(&mut self)
        requires
            old(self).wf(),
        ensures
            final(self).follows(old(self), keywords()),
    {
        let ghost start = self.gathered();
        self.push("scalar", CompletionItemKind::Keyword);
        self.push("enum", CompletionItemKind::Keyword);
        self.push("struct", CompletionItemKind::Keyword);
        self.push("union", CompletionItemKind::Keyword);
        self.push("interface", CompletionItemKind::Keyword);
        self.push("directive", CompletionItemKind::Keyword);
        self.push("input", CompletionItemKind::Keyword);
        proof {
            assert(self.gathered() =~= start + keywords());
        }
    }

    /// The completions that the items of one file stand for.
    fn file_items(items: &Items, out: &mut Vec<CompletionItem>)
        requires
            items@.items.len() <= u32::MAX,
        ensures
            completion_views(final(out)@) == completion_views(old(out)@) + file_candidates(
                items@,
                items@.items.len() as int,
            ),
    {
        let n = items.len();
        let mut i: usize = 0;
        let ghost start = completion_views(out@);
        proof {
            assert(start + Seq::empty() =~= start);
        }
        while i < n
            invariant
                n == items@.items.len(),
                n <= u32::MAX,
                i <= n,
                completion_views(out@) == start + file_candidates(items@, i as int),
            decreases n - i,
        {
            match items.item(i as u32) {
                Some(item) => {
                    let kind = match item.kind {
                        ItemKind::TypeDefinition(k) => match items.typedef(k) {
                            Some(def) => Some(completion_kind(def.kind)),
                            None => None,
                        },
                        ItemKind::DirectiveDefinition(k) => match items.directive(k) {
                            Some(def) => Some(CompletionItemKind::Directive(def.locations)),
                            None => None,
                        },
                    };
                    match kind {
                        Some(kind) => {
                            let ghost before = out@;
                            let c = CompletionItem { label: item.name.text.clone(), kind };
                            out.push(c);
                            proof {
                                assert(completion_views(out@) =~= completion_views(before).push(
                                    c@,
                                ));
                                assert(start + file_candidates(items@, i + 1) =~= (start
                                    + file_candidates(items@, i as int)).push(c@));
                            }
                        },
                        None => {},
                    }
                },
                None => {},
            }
            i += 1;
        }
    }

    /// Every item of the neighborhood as a completion.
    fn items(&self) -> (r: Vec<CompletionItem>)
        requires
            self.wf(),
        ensures
            completion_views(r@) == candidates(self.source(), self.file()),
    {
        let hood = self.db.project_of(self.file);
        let mut out: Vec<CompletionItem> = Vec::new();
        let mut i: usize = 0;
        let ghost mut lo: int = 0;
        let ghost source = self.db@;
        let file = self.file;
        proof {
            assert(completion_views(out@) =~= Seq::empty());
        }
        while i < hood.len()
            invariant
                self.wf(),
                source == self.db@,
                file == self.file,
                i <= hood@.len(),
                strictly_sorted(hood@),
                forall|g: FileId| hood@.contains(g) <==> neighbors(source.projects, file, g),
                0 <= lo <= 0x1_0000_0000,
                i > 0 ==> lo == hood@[i - 1].0 + 1,
                i == 0 ==> lo == 0,
                completion_views(out@) == candidates_below(source, file, lo),
            decreases hood@.len() - i,
        {
            let g = hood[i];
            proof {
                assert forall|h: FileId| lo <= h.0 < g.0 implies !neighbors(
                    source.projects,
                    file,
                    h,
                ) by {
                    if hood@.contains(h) {
                        let j = choose|j: int| 0 <= j < hood@.len() && hood@[j] == h;
                        if j < i {
                            if j < i - 1 {
                                assert(hood@[j].0 < hood@[i - 1].0);
                            }
                        } else if j > i {
                            assert(hood@[i as int].0 < hood@[j].0);
                        }
                    }
                }
                lemma_candidates_gap(source, file, lo, g.0 as int);
                assert(hood@.contains(g));
                assert(FileId(((g.0 + 1) - 1) as u32) == g);
            }
            match self.db.items(g) {
                Some(items) => {
                    proof {
                        self.db.lemma_names_bounded();
                        assert(source.names(g).len() == items@.items.len());
                    }
                    Self::file_items(items, &mut out);
                },
                None => {
                    proof {
                        assert(completion_views(out@) + Seq::empty() =~= completion_views(out@));
                    }
                },
            }
            proof {
                lo = g.0 + 1;
            }
            i += 1;
        }
        proof {
            assert forall|h: FileId| lo <= h.0 < 0x1_0000_0000 implies !neighbors(
                source.projects,
                file,
                h,
            ) by {
                if hood@.contains(h) {
                    let j = choose|j: int| 0 <= j < hood@.len() && hood@[j] == h;
                    if j < i - 1 {
                        assert(hood@[j].0 < hood@[i - 1].0);
                    }
                }
            }
            lemma_candidates_gap(source, file, lo, 0x1_0000_0000);
        }
        out
    }

    /// Gathers the items of the neighborhood that fit the given context.
    fn complete_fitting(&mut self, context: Context)
        requires
            old(self).wf(),
        ensures
            final(self).follows(
                old(self),
                fitting(
                    candidates(old(self).source(), old(self).file()),
                    context,
                    candidates(old(self).source(), old(self).file()).len() as int,
                ),
            ),
    {
        let all = self.items();
        let ghost views = completion_views(all@);
        let ghost start = self.gathered();
        let mut all = all;
        let n = all.len();
        let mut kept: Vec<CompletionItem> = Vec::new();
        let mut i: usize = 0;
        proof {
            assert(completion_views(kept@) =~= Seq::empty());
        }
        while i < n
            invariant
                n == all@.len(),
                i <= n,
                views == completion_views(all@),
                completion_views(kept@) == fitting(views, context, i as int),
            decreases n - i,
        {
            if is_eligible(context, all[i].kind) {
                let ghost before = kept@;
                let c = all[i].clone_item();
                kept.push(c);
                proof {
                    assert(completion_views(kept@) =~= completion_views(before).push(c@));
                }
            }
            i += 1;
        }
        let ghost before = self.completions@;
        let ghost added = kept@;
        self.completions.append(&mut kept);
        proof {
            assert(completion_views(self.completions@) =~= completion_views(before)
                + completion_views(added));
        }
    }

    fn complete_input_fields(&mut self)
        requires
            old(self).wf(),
        ensures
            final(self).follows(
                old(self),
                completions_in(old(self).source(), old(self).file(), Context::InputField),
            ),
    {
        self.complete_fitting(Context::InputField)
    }

    fn complete_fields(&mut self)
        requires
            old(self).wf(),
        ensures
            final(self).follows(
                old(self),
                completions_in(old(self).source(), old(self).file(), Context::Field),
            ),
    {
        self.complete_fitting(Context::Field)
    }

    fn complete_union_member(&mut self)
        requires
            old(self).wf(),
        ensures
            final(self).follows(
                old(self),
                completions_in(old(self).source(), old(self).file(), Context::UnionMembers),
            ),
    {
        self.complete_fitting(Context::UnionMembers)
    }

    fn complete_directives(&mut self, location: DirectiveLocation)
        requires
            old(self).wf(),
        ensures
            final(self).follows(
                old(self),
                completions_in(
                    old(self).source(),
                    old(self).file(),
                    Context::Directive(location),
                ),
            ),
    {
        self.complete_fitting(Context::Directive(location))
    }
}

impl CompletionItem {
    /// A copy of the completion.
    pub fn clone_item(&self) -> (c: CompletionItem)
        ensures
            c@ == self@,
    {
        CompletionItem { label: self.label.clone(), kind: self.kind }
    }
}

/// The completions at a point of a file.
pub fn completions(db: &Database, file: FileId, at: Point) -> (r: Vec<CompletionItem>)
    requires
        db.wf(),
    ensures
        completion_views(r@) == spec_completions(db@, file, at),
{
    let ctx = CompletionCtxt::new(db, file, at);
    proof {
        assert(ctx.gathered() =~= Seq::empty());
        let found = completions_in(ctx.source(), ctx.file(), ctx.context());
        assert(ctx.gathered() + found =~= found);
    }
    ctx.completions()
}

} // verus!
