//! The type graph: what the fields, arguments and members of an item are
//! typed as, which interfaces an item implements, and which items implement
//! an interface.

use vstd::prelude::*;
use crate::body::{
    arg_views, field_views, type_views, Arg, ArgView, Field, FieldView, ItemBody, ItemBodyKind,
    ItemBodyKindView,
};
use crate::db::{Database, SourceView};
use crate::ir::{FileId, ItemKind, ItemRes, Items, ItemsView, Name, NameView, TypeDefinitionView};
use crate::lower::{holds, holds_name, name_views};
use crate::source::{neighbors, strictly_sorted};
use crate::ty::{Ty, TypeView};

verus! {

/// The fields of a body, each with its type; none where the body has no fields.
pub open spec fn fields_of_body(kind: ItemBodyKindView) -> Seq<FieldView> {
    match kind {
        ItemBodyKindView::Object(fields) => fields,
        ItemBodyKindView::Interface(fields) => fields,
        ItemBodyKindView::InputObject(fields) => fields,
        _ => Seq::empty(),
    }
}

/// The member types of a union's body; none for any other body.
pub open spec fn members_of_body(kind: ItemBodyKindView) -> Seq<TypeView> {
    match kind {
        ItemBodyKindView::Union(types) => types,
        _ => Seq::empty(),
    }
}

/// The index of the first field of the given name at or after `from`.
pub open spec fn find_field(fields: Seq<FieldView>, name: Seq<char>, from: int) -> Option<int>
    decreases fields.len() - from,
{
    if from < 0 || from >= fields.len() {
        None
    } else if fields[from].name.text == name {
        Some(from)
    } else {
        find_field(fields, name, from + 1)
    }
}

/// The arguments of the first field of the given name, each with its type;
/// none where there is no such field.
pub open spec fn args_of_field(kind: ItemBodyKindView, name: Seq<char>) -> Seq<ArgView> {
    match find_field(fields_of_body(kind), name, 0) {
        Some(k) => fields_of_body(kind)[k].args,
        None => Seq::empty(),
    }
}

/// The fields of a body with their types.
pub fn field_types(body: ItemBody) -> (r: Vec<Field>)
    ensures
        field_views(r@) == fields_of_body(body@.kind),
{
    match body.kind {
        ItemBodyKind::Object(b) => b.fields,
        ItemBodyKind::Interface(b) => b.fields,
        ItemBodyKind::InputObject(b) => b.fields,
        _ => {
            let out: Vec<Field> = Vec::new();
            proof {
                assert(field_views(out@) =~= Seq::empty());
            }
            out
        },
    }
}

/// The arguments of a field of a body with their types.
pub fn arg_types(body: ItemBody, field: &Name) -> (r: Vec<Arg>)
    ensures
        arg_views(r@) == args_of_field(body@.kind, field@.text),
{
    let mut fields = field_types(body);
    let ghost views = field_views(fields@);
    let mut k: usize = 0;
    while k < fields.len()
        invariant
            k <= fields@.len(),
            views == field_views(fields@),
            views == fields_of_body(body@.kind),
            find_field(views, field@.text, 0) == find_field(views, field@.text, k as int),
        decreases fields@.len() - k,
    {
        if fields[k].name.same(field) {
            proof {
                assert(views[k as int] == fields@[k as int]@);
            }
            let found = fields.swap_remove(k);
            return found.args;
        }
        k += 1;
    }
    let out: Vec<Arg> = Vec::new();
    proof {
        assert(arg_views(out@) =~= Seq::empty());
    }
    out
}

/// The member types of a union's body.
pub fn union_members(body: ItemBody) -> (r: Vec<Ty>)
    ensures
        type_views(r@) == members_of_body(body@.kind),
{
    match body.kind {
        ItemBodyKind::Union(b) => b.types,
        _ => {
            let out: Vec<Ty> = Vec::new();
            proof {
                assert(type_views(out@) =~= Seq::empty());
            }
            out
        },
    }
}

/// The names of the interfaces that an item says it implements; none for
/// an item that is no type definition or says nothing.
pub open spec fn implemented_names(source: SourceView, res: ItemRes) -> Seq<NameView> {
    if source.files.contains_key(res.file) && res.idx < source.items(res.file).items.len() {
        let items = source.items(res.file);
        match items.items[res.idx as int].kind {
            ItemKind::TypeDefinition(k) => if k < items.typedefs.len() {
                match items.typedefs[k as int].implementations {
                    Some(names) => names,
                    None => Seq::empty(),
                }
            } else {
                Seq::empty()
            },
            ItemKind::DirectiveDefinition(_) => Seq::empty(),
        }
    } else {
        Seq::empty()
    }
}

/// What the first `upto` of the names resolve to from the file, name after name.
pub open spec fn resolve_all(source: SourceView, file: FileId, names: Seq<NameView>, upto: int) -> Seq<
    ItemRes,
>
    decreases upto,
{
    if upto <= 0 {
        Seq::empty()
    } else {
        resolve_all(source, file, names, upto - 1) + source.resolve(file, names[upto - 1].text)
    }
}

/// The items that an item implements: what the interface names it lists
/// resolve to from its file.
pub open spec fn spec_implements(source: SourceView, res: ItemRes) -> Seq<ItemRes> {
    resolve_all(
        source,
        res.file,
        implemented_names(source, res),
        implemented_names(source, res).len() as int,
    )
}

/// The items that an item implements.
pub fn implements(db: &Database, res: ItemRes) -> (r: Vec<ItemRes>)
    requires
        db.wf(),
    ensures
        r@ == spec_implements(db@, res),
{
    let mut out: Vec<ItemRes> = Vec::new();
    let items = match db.items(res.file) {
        Some(items) => items,
        None => {
            return out;
        },
    };
    let item = match items.item(res.idx) {
        Some(item) => item,
        None => {
            return out;
        },
    };
    let def = match item.kind {
        ItemKind::TypeDefinition(k) => match items.typedef(k) {
            Some(def) => def,
            None => {
                return out;
            },
        },
        ItemKind::DirectiveDefinition(_) => {
            return out;
        },
    };
    let names = match &def.implementations {
        Some(names) => names,
        None => {
            return out;
        },
    };
    let ghost views = implemented_names(db@, res);
    proof {
        assert(views == name_views(names@));
    }
    let mut i: usize = 0;
    while i < names.len()
        invariant
            db.wf(),
            i <= names@.len(),
            views == name_views(names@),
            out@ == resolve_all(db@, res.file, views, i as int),
        decreases names@.len() - i,
    {
        let mut found = db.resolve(res.file, &names[i]).to_vec();
        out.append(&mut found);
        i += 1;
    }
    out
}

/// Whether a definition lists the name among the interfaces it implements.
pub open spec fn lists_interface(def: TypeDefinitionView, name: Seq<char>) -> bool {
    match def.implementations {
        Some(names) => holds_name(names, name),
        None => false,
    }
}

/// Whether an item is a type definition that lists the name among the
/// interfaces it implements.
pub open spec fn item_implements(items: ItemsView, i: int, name: Seq<char>) -> bool {
    match items.items[i].kind {
        ItemKind::TypeDefinition(k) => k < items.typedefs.len() && lists_interface(
            items.typedefs[k as int],
            name,
        ),
        ItemKind::DirectiveDefinition(_) => false,
    }
}

/// Those of the first `upto` items of a file that implement the interface.
pub open spec fn implementors_upto(items: ItemsView, file: FileId, name: Seq<char>, upto: int) -> Seq<
    ItemRes,
>
    decreases upto,
{
    if upto <= 0 {
        Seq::empty()
    } else if item_implements(items, upto - 1, name) {
        implementors_upto(items, file, name, upto - 1).push(
            ItemRes { file, idx: (upto - 1) as u32 },
        )
    } else {
        implementors_upto(items, file, name, upto - 1)
    }
}

/// The items of one file that implement the interface.
pub open spec fn implementors_in(source: SourceView, file: FileId, name: Seq<char>) -> Seq<ItemRes> {
    if source.files.contains_key(file) {
        implementors_upto(source.items(file), file, name, source.items(file).items.len() as int)
    } else {
        Seq::empty()
    }
}

/// The items of the neighborhood that implement the interface, among the
/// files with an id below `bound`, file after file in rising order of ids.
pub open spec fn implementors_below(
    source: SourceView,
    file: FileId,
    name: Seq<char>,
    bound: int,
) -> Seq<ItemRes>
    decreases bound,
{
    if bound <= 0 {
        Seq::empty()
    } else {
        let g = FileId((bound - 1) as u32);
        let below = implementors_below(source, file, name, bound - 1);
        if neighbors(source.projects, file, g) {
            below + implementors_in(source, g, name)
        } else {
            below
        }
    }
}

/// The items of the neighborhood of a file that implement the interface.
pub open spec fn spec_implementors(source: SourceView, file: FileId, name: Seq<char>) -> Seq<
    ItemRes,
> {
    implementors_below(source, file, name, 0x1_0000_0000)
}

proof fn lemma_implementors_gap(source: SourceView, file: FileId, name: Seq<char>, lo: int, hi: int)
    requires
        0 <= lo <= hi <= 0x1_0000_0000,
        forall|g: FileId| lo <= g.0 < hi ==> !neighbors(source.projects, file, g),
    ensures
        implementors_below(source, file, name, hi) == implementors_below(source, file, name, lo),
    decreases hi - lo,
{
    if lo < hi {
        lemma_implementors_gap(source, file, name, lo, hi - 1);
        let g = FileId((hi - 1) as u32);
        assert(lo <= g.0 < hi);
    }
}

fn file_implementors(items: &Items, file: FileId, name: &Name, out: &mut Vec<ItemRes>)
    requires
        items@.items.len() <= u32::MAX,
    ensures
        final(out)@ == old(out)@ + implementors_upto(
            items@,
            file,
            name@.text,
            items@.items.len() as int,
        ),
{
    let n = items.len();
    let mut i: u32 = 0;
    let ghost start = out@;
    proof {
        assert(start + implementors_upto(items@, file, name@.text, 0) =~= start);
    }
    while (i as usize) < n
        invariant
            n == items@.items.len(),
            n <= u32::MAX,
            i <= n,
            out@ == start + implementors_upto(items@, file, name@.text, i as int),
        decreases n - i,
    {
        let found = match items.item(i) {
            Some(item) => match item.kind {
                ItemKind::TypeDefinition(k) => match items.typedef(k) {
                    Some(def) => match &def.implementations {
                        Some(names) => holds(names, name),
                        None => false,
                    },
                    None => false,
                },
                ItemKind::DirectiveDefinition(_) => false,
            },
            None => false,
        };
        if found {
            let res = ItemRes { file, idx: i };
            out.push(res);
            proof {
                assert(start + implementors_upto(items@, file, name@.text, i + 1) =~= (start
                    + implementors_upto(items@, file, name@.text, i as int)).push(res));
            }
        }
        i += 1;
    }
}

/// The items of the neighborhood of a file that implement the interface.
pub fn implementors(db: &Database, file: FileId, interface: &Name) -> (r: Vec<ItemRes>)
    requires
        db.wf(),
    ensures
        r@ == spec_implementors(db@, file, interface@.text),
{
    let hood = db.project_of(file);
    let mut out: Vec<ItemRes> = Vec::new();
    let mut i: usize = 0;
    let ghost mut lo: int = 0;
    let ghost source = db@;
    while i < hood.len()
        invariant
            db.wf(),
            source == db@,
            i <= hood@.len(),
            strictly_sorted(hood@),
            forall|g: FileId| hood@.contains(g) <==> neighbors(source.projects, file, g),
            0 <= lo <= 0x1_0000_0000,
            i > 0 ==> lo == hood@[i - 1].0 + 1,
            i == 0 ==> lo == 0,
            out@ == implementors_below(source, file, interface@.text, lo),
        decreases hood@.len() - i,
    {
        let g = hood[i];
        proof {
            assert forall|h: FileId| lo <= h.0 < g.0 implies !neighbors(
                source.projects,
                file,
                h,
            ) by {
                if hood@.contains(h) {
                    let j = choose|j: int| 0 <= j < hood@.len() && hood@[j] == h;
                    if j < i {
                        if j < i - 1 {
                            assert(hood@[j].0 < hood@[i - 1].0);
                        }
                    } else if j > i {
                        assert(hood@[i as int].0 < hood@[j].0);
                    }
                }
            }
            lemma_implementors_gap(source, file, interface@.text, lo, g.0 as int);
            assert(hood@.contains(g));
            assert(FileId(((g.0 + 1) - 1) as u32) == g);
        }
        match db.items(g) {
            Some(items) => {
                proof {
                    db.lemma_names_bounded();
                    assert(source.names(g).len() == items@.items.len());
                }
                file_implementors(items, g, interface, &mut out);
            },
            None => {
                proof {
                    assert(out@ + Seq::empty() =~= out@);
                }
            },
        }
        proof {
            lo = g.0 + 1;
        }
        i += 1;
    }
    proof {
        assert forall|h: FileId| lo <= h.0 < 0x1_0000_0000 implies !neighbors(
            source.projects,
            file,
            h,
        ) by {
            if hood@.contains(h) {
                let j = choose|j: int| 0 <= j < hood@.len() && hood@[j] == h;
                if j < i - 1 {
                    assert(hood@[j].0 < hood@[i - 1].0);
                }
            }
        }
        lemma_implementors_gap(source, file, interface@.text, lo, 0x1_0000_0000);
    }
    out
}

} // verus!
