//! The database: the inputs, what is derived from each file, and name
//! resolution across the files of a project.
//!
//! Everything derived is a function of the inputs alone. The database
//! derives a file's items and item map when the file's data is set and keeps
//! them until the data is replaced.

use std::sync::Arc;
use vstd::prelude::*;
use crate::ir::{FileId, Item, ItemRes, Items, ItemsView, Name};
use crate::item_map::{
    item_map, item_map_of, lemma_item_map_lookup, lemma_positions, lemma_positions_empty, lookup,
    positions, ItemMap,
};
use crate::lower::{items_of, lemma_lower_upto_len, lower_file};
use crate::source::{
    all_files, is_member, neighborhood, neighbors, project_views, strictly_sorted, FileData,
    Project, ProjectView,
};
use crate::store::Resolutions;
use crate::ty::Res;

verus! {

/// The indices of one file's items as references to them.
pub open spec fn lift(file: FileId, indices: Seq<u32>) -> Seq<ItemRes> {
    indices.map_values(|i: u32| ItemRes { file, idx: i })
}

/// The inputs of the database.
pub struct SourceView {
    pub projects: Seq<ProjectView>,
    pub files: Map<FileId, FileData>,
}

impl SourceView {
    /// The inputs with the data of one file set or replaced.
    pub open spec fn with_file(self, file: FileId, data: FileData) -> SourceView {
        SourceView { projects: self.projects, files: self.files.insert(file, data) }
    }

    /// The inputs with the projects replaced.
    pub open spec fn with_projects(self, projects: Seq<ProjectView>) -> SourceView {
        SourceView { projects, files: self.files }
    }

    /// The items of a file that has data.
    pub open spec fn items(self, file: FileId) -> ItemsView
        recommends
            self.files.contains_key(file),
    {
        items_of(self.files[file].text@, self.files[file].tree.root)
    }

    /// The names of a file's items, in item order; none for a file without data.
    pub open spec fn names(self, file: FileId) -> Seq<Seq<char>> {
        if self.files.contains_key(file) {
            self.items(file).names()
        } else {
            Seq::empty()
        }
    }

    /// The item map of a file.
    pub open spec fn item_map(self, file: FileId) -> Seq<(Seq<char>, Seq<u32>)> {
        item_map_of(self.names(file))
    }

    /// The file's own items of the given name, in item order.
    pub open spec fn definitions_in(self, file: FileId, name: Seq<char>) -> Seq<ItemRes> {
        lift(file, positions(self.names(file), name, self.names(file).len() as int))
    }

    /// What the name resolves to, seen from `file`, among the files with an
    /// id below `bound`: the definitions in each file of the neighborhood,
    /// file after file in rising order of their ids.
    pub open spec fn resolve_below(self, file: FileId, name: Seq<char>, bound: int) -> Seq<ItemRes>
        decreases bound,
    {
        if bound <= 0 {
            Seq::empty()
        } else {
            let g = FileId((bound - 1) as u32);
            let below = self.resolve_below(file, name, bound - 1);
            if neighbors(self.projects, file, g) {
                below + self.definitions_in(g, name)
            } else {
                below
            }
        }
    }

    /// What the name resolves to, seen from `file`.
    pub open spec fn resolve(self, file: FileId, name: Seq<char>) -> Seq<ItemRes> {
        self.resolve_below(file, name, 0x1_0000_0000)
    }
}

/// Where no file of the neighborhood has an id from `lo` up to `hi`,
/// resolution below `hi` is resolution below `lo`.
pub proof fn lemma_resolve_gap(view: SourceView, file: FileId, name: Seq<char>, lo: int, hi: int)
    requires
        0 <= lo <= hi <= 0x1_0000_0000,
        forall|g: FileId| lo <= g.0 < hi ==> !neighbors(view.projects, file, g),
    ensures
        view.resolve_below(file, name, hi) == view.resolve_below(file, name, lo),
    decreases hi - lo,
{
    if lo < hi {
        lemma_resolve_gap(view, file, name, lo, hi - 1);
        let g = FileId((hi - 1) as u32);
        assert(lo <= g.0 < hi);
    }
}

/// Resolution yields an item exactly when its file is in the neighborhood
/// and the item there bears the name.
pub proof fn lemma_resolve_below_members(
    view: SourceView,
    file: FileId,
    name: Seq<char>,
    bound: int,
    r: ItemRes,
)
    requires
        0 <= bound <= 0x1_0000_0000,
        forall|g: FileId| #[trigger] view.names(g).len() <= u32::MAX,
    ensures
        view.resolve_below(file, name, bound).contains(r) <==> (r.file.0 < bound && neighbors(
            view.projects,
            file,
            r.file,
        ) && r.idx < view.names(r.file).len() && view.names(r.file)[r.idx as int] == name),
    decreases bound,
{
    if bound > 0 {
        lemma_resolve_below_members(view, file, name, bound - 1, r);
        let g = FileId((bound - 1) as u32);
        let below = view.resolve_below(file, name, bound - 1);
        if neighbors(view.projects, file, g) {
            let names = view.names(g);
            let pos = positions(names, name, names.len() as int);
            let here = view.definitions_in(g, name);
            lemma_positions(names, name, names.len() as int);
            let all = below + here;
            if all.contains(r) {
                let k = choose|k: int| 0 <= k < all.len() && all[k] == r;
                if k < below.len() {
                    assert(below[k] == r);
                    assert(below.contains(r));
                } else {
                    assert(here[k - below.len()] == r);
                    assert(r.file == g);
                    assert(pos.contains(r.idx));
                }
            }
            if below.contains(r) {
                let k = choose|k: int| 0 <= k < below.len() && below[k] == r;
                assert(all[k] == r);
            }
            if r.file == g && r.idx < names.len() && names[r.idx as int] == name {
                assert(pos.contains(r.idx));
                let k = choose|k: int| 0 <= k < pos.len() && pos[k] == r.idx;
                assert(here[k] == r);
                assert(all[below.len() + k] == r);
            }
        }
    } else {
        assert(view.resolve_below(file, name, bound).len() == 0);
    }
}

/// Resolution lists its items in rising order of file and, within a file, of
/// index; so no item is listed twice.
pub proof fn lemma_resolve_below_sorted(
    view: SourceView,
    file: FileId,
    name: Seq<char>,
    bound: int,
)
    requires
        0 <= bound <= 0x1_0000_0000,
        forall|g: FileId| #[trigger] view.names(g).len() <= u32::MAX,
    ensures
        forall|a: int, b: int|
            0 <= a < b < view.resolve_below(file, name, bound).len() ==> res_lt(
                #[trigger] view.resolve_below(file, name, bound)[a],
                #[trigger] view.resolve_below(file, name, bound)[b],
            ),
        forall|a: int|
            0 <= a < view.resolve_below(file, name, bound).len() ==> (
            #[trigger] view.resolve_below(file, name, bound)[a]).file.0 < bound,
    decreases bound,
{
    if bound > 0 {
        lemma_resolve_below_sorted(view, file, name, bound - 1);
        let g = FileId((bound - 1) as u32);
        if neighbors(view.projects, file, g) {
            let names = view.names(g);
            lemma_positions(names, name, names.len() as int);
            let below = view.resolve_below(file, name, bound - 1);
            let here = view.definitions_in(g, name);
            let all = below + here;
            assert forall|a: int, b: int| 0 <= a < b < all.len() implies res_lt(
                #[trigger] all[a],
                #[trigger] all[b],
            ) by {
                if b < below.len() {
                } else if a < below.len() {
                    assert(all[b] == here[b - below.len()]);
                } else {
                    assert(all[a] == here[a - below.len()]);
                    assert(all[b] == here[b - below.len()]);
                }
            }
            assert forall|a: int| 0 <= a < all.len() implies (#[trigger] all[a]).file.0 < bound by {
                if a >= below.len() {
                    assert(all[a] == here[a - below.len()]);
                } else {
                    assert(all[a] == below[a]);
                }
            }
        } else {
            let below = view.resolve_below(file, name, bound - 1);
            assert forall|a: int| 0 <= a < below.len() implies (#[trigger] below[a]).file.0
                < bound by {}
        }
    }
}

impl SourceView {
    /// No file has more root-level nodes than a 32-bit index can tell apart.
    pub open spec fn valid(self) -> bool {
        forall|f: FileId|
            self.files.contains_key(f) ==> (#[trigger] self.files[f]).tree.root.children@.len()
                <= u32::MAX
    }

    /// A file of valid inputs has at most as many items as it has root-level nodes.
    pub proof fn lemma_names_bounded(self)
        requires
            self.valid(),
        ensures
            forall|g: FileId| #[trigger] self.names(g).len() <= u32::MAX,
    {
        assert forall|g: FileId| #[trigger] self.names(g).len() <= u32::MAX by {
            if self.files.contains_key(g) {
                let data = self.files[g];
                lemma_lower_upto_len(
                    data.text@,
                    data.tree.root,
                    ItemsView::empty(),
                    data.tree.root.children@.len() as int,
                );
            }
        }
    }
}

/// Resolving a name from a file yields the items of that name from the item
/// maps of the files in the file's neighborhood, each of them once: an item
/// is among the resolutions exactly when its file is in the neighborhood and
/// that file's item map lists its index under the name.
pub proof fn lemma_resolve_collects_item_maps(view: SourceView, file: FileId, name: Seq<char>)
    requires
        view.valid(),
    ensures
        view.resolve(file, name).no_duplicates(),
        forall|r: ItemRes|
            view.resolve(file, name).contains(r) <==> (neighbors(view.projects, file, r.file)
                && match lookup(view.item_map(r.file), name) {
                Some(indices) => indices.contains(r.idx),
                None => false,
            }),
        forall|a: int, b: int|
            0 <= a < b < view.resolve(file, name).len() ==> res_lt(
                #[trigger] view.resolve(file, name)[a],
                #[trigger] view.resolve(file, name)[b],
            ),
{
    view.lemma_names_bounded();
    let all = view.resolve(file, name);
    lemma_resolve_below_sorted(view, file, name, 0x1_0000_0000);
    assert forall|r: ItemRes|
        all.contains(r) <==> (neighbors(view.projects, file, r.file) && match lookup(
            view.item_map(r.file),
            name,
        ) {
            Some(indices) => indices.contains(r.idx),
            None => false,
        }) by {
        lemma_resolve_below_members(view, file, name, 0x1_0000_0000, r);
        let names = view.names(r.file);
        lemma_item_map_lookup(names, name);
        lemma_positions(names, name, names.len() as int);
        if r.idx < names.len() && names[r.idx as int] == name {
            assert(names.contains(name));
        }
    }
}

/// Replacing a file's data by data whose items bear the same names in the
/// same order leaves the file's item map as it was.
pub proof fn lemma_edit_keeping_names_keeps_item_map(
    view: SourceView,
    file: FileId,
    data: FileData,
)
    requires
        view.files.contains_key(file),
        items_of(data.text@, data.tree.root).names() == view.items(file).names(),
    ensures
        view.with_file(file, data).item_map(file) == view.item_map(file),
{
}

/// Replacing the data of one file leaves the item map of every other file
/// as it was. It leaves what a name resolves to from another file as it was
/// too, provided that, where the edited file is in that file's neighborhood,
/// the edit does not change which of the edited file's items bear the name.
pub proof fn lemma_edit_leaves_other_files(
    view: SourceView,
    edited: FileId,
    data: FileData,
    other: FileId,
    name: Seq<char>,
)
    requires
        other != edited,
        neighbors(view.projects, other, edited) ==> view.with_file(edited, data).definitions_in(
            edited,
            name,
        ) == view.definitions_in(edited, name),
    ensures
        view.with_file(edited, data).item_map(other) == view.item_map(other),
        view.with_file(edited, data).resolve(other, name) == view.resolve(other, name),
{
    lemma_edit_resolve_below(view, edited, data, other, name, 0x1_0000_0000);
}

proof fn lemma_edit_resolve_below(
    view: SourceView,
    edited: FileId,
    data: FileData,
    from: FileId,
    name: Seq<char>,
    bound: int,
)
    requires
        0 <= bound <= 0x1_0000_0000,
        neighbors(view.projects, from, edited) ==> view.with_file(edited, data).definitions_in(
            edited,
            name,
        ) == view.definitions_in(edited, name),
    ensures
        view.with_file(edited, data).resolve_below(from, name, bound) == view.resolve_below(
            from,
            name,
            bound,
        ),
    decreases bound,
{
    if bound > 0 {
        lemma_edit_resolve_below(view, edited, data, from, name, bound - 1);
        let g = FileId((bound - 1) as u32);
        if g != edited {
            assert(view.with_file(edited, data).names(g) == view.names(g));
        }
    }
}

/// The order of item references: by file, then by index.
pub open spec fn res_lt(a: ItemRes, b: ItemRes) -> bool {
    a.file.0 < b.file.0 || (a.file == b.file && a.idx < b.idx)
}

/// What the name resolves to among the first `upto` of the given files,
/// each with its item map: for file after file, the items that its map
/// lists under the name.
pub open spec fn resolve_among_upto(
    files: Seq<FileId>,
    maps: Seq<Seq<(Seq<char>, Seq<u32>)>>,
    name: Seq<char>,
    upto: int,
) -> Seq<ItemRes>
    decreases upto,
{
    if upto <= 0 {
        Seq::empty()
    } else {
        resolve_among_upto(files, maps, name, upto - 1) + match lookup(maps[upto - 1], name) {
            Some(indices) => lift(files[upto - 1], indices),
            None => Seq::empty(),
        }
    }
}

/// The views of a sequence of item maps.
pub open spec fn item_map_views(s: Seq<&ItemMap>) -> Seq<Seq<(Seq<char>, Seq<u32>)>> {
    s.map_values(|m: &ItemMap| m@)
}

/// Resolves a name among the given files, each with its item map.
pub fn resolve_among(files: &Vec<FileId>, maps: &Vec<&ItemMap>, name: &Name) -> (r: Resolutions)
    requires
        files@.len() == maps@.len(),
    ensures
        r@ == resolve_among_upto(
            files@,
            item_map_views(maps@),
            name@.text,
            files@.len() as int,
        ),
{
    let mut out = Resolutions::new();
    let mut i: usize = 0;
    let ghost views = item_map_views(maps@);
    while i < files.len()
        invariant
            i <= files@.len(),
            files@.len() == maps@.len(),
            views == item_map_views(maps@),
            out@ == resolve_among_upto(files@, views, name@.text, i as int),
        decreases files@.len() - i,
    {
        let file = files[i];
        let ghost start = out@;
        match maps[i].get(name) {
            Some(indices) => {
                let n = indices.len();
                let mut j: usize = 0;
                proof {
                    assert(start + lift(file, indices@.subrange(0, 0)) =~= start);
                }
                while j < n
                    invariant
                        n == indices@.len(),
                        j <= n,
                        out@ == start + lift(file, indices@.subrange(0, j as int)),
                    decreases n - j,
                {
                    let idx = indices.get(j);
                    out.push(ItemRes { file, idx });
                    proof {
                        assert(start + lift(file, indices@.subrange(0, j + 1)) =~= (start + lift(
                            file,
                            indices@.subrange(0, j as int),
                        )).push(ItemRes { file, idx }));
                    }
                    j += 1;
                }
                proof {
                    assert(indices@.subrange(0, n as int) =~= indices@);
                }
            },
            None => {
                proof {
                    assert(start + Seq::empty() =~= start);
                }
            },
        }
        i += 1;
    }
    out
}

/// A file with data and what is derived from it.
struct FileEntry {
    file: FileId,
    data: FileData,
    items: Arc<Items>,
    item_map: ItemMap,
}

impl FileEntry {
    spec fn wf(self) -> bool {
        &&& self.data.tree.root.children@.len() <= u32::MAX
        &&& self.items@ == items_of(self.data.text@, self.data.tree.root)
        &&& self.item_map@ == item_map_of(self.items@.names())
    }
}

/// The projects, the data of each file, and what is derived from them.
pub struct Database {
    projects: Vec<Project>,
    entries: Vec<FileEntry>,
    model: Ghost<Map<FileId, FileData>>,
    revision: u64,
}

impl View for Database {
    type V = SourceView;

    closed spec fn view(&self) -> SourceView {
        SourceView { projects: project_views(self.projects@), files: self.model@ }
    }
}

impl Database {
    /// Each file with data has one entry, and what the entry holds is derived
    /// from its data.
    pub closed spec fn wf(self) -> bool {
        &&& forall|k: int|
            0 <= k < self.entries@.len() ==> {
                &&& self.model@.contains_key((#[trigger] self.entries@[k]).file)
                &&& self.model@[self.entries@[k].file] == self.entries@[k].data
                &&& self.entries@[k].wf()
            }
        &&& forall|f: FileId|
            self.model@.contains_key(f) ==> exists|k: int|
                0 <= k < self.entries@.len() && (#[trigger] self.entries@[k]).file == f
        &&& forall|j: int, k: int|
            0 <= j < k < self.entries@.len() ==> (#[trigger] self.entries@[j]).file != (
            #[trigger] self.entries@[k]).file
    }

    /// The inputs of a database are valid: no file has more root-level
    /// nodes than a 32-bit index can tell apart.
    pub proof fn lemma_valid(self)
        requires
            self.wf(),
        ensures
            self@.valid(),
    {
        assert forall|f: FileId| self@.files.contains_key(f) implies (
        #[trigger] self@.files[f]).tree.root.children@.len() <= u32::MAX by {
            let k = choose|k: int|
                0 <= k < self.entries@.len() && (#[trigger] self.entries@[k]).file == f;
        }
    }

    /// A file with data has at most as many items as a 32-bit index can tell apart.
    pub proof fn lemma_names_bounded(self)
        requires
            self.wf(),
        ensures
            forall|g: FileId| #[trigger] self@.names(g).len() <= u32::MAX,
    {
        assert forall|g: FileId| #[trigger] self@.names(g).len() <= u32::MAX by {
            if self.model@.contains_key(g) {
                let k = choose|k: int|
                    0 <= k < self.entries@.len() && (#[trigger] self.entries@[k]).file == g;
                let e = self.entries@[k];
                lemma_lower_upto_len(
                    e.data.text@,
                    e.data.tree.root,
                    ItemsView::empty(),
                    e.data.tree.root.children@.len() as int,
                );
            }
        }
    }

    /// How many times an input has been set.
    pub closed spec fn spec_revision(&self) -> u64 {
        self.revision
    }

    /// A database without projects or files, at revision zero.
    pub fn new() -> (db: Database)
        ensures
            db.wf(),
            db@.projects.len() == 0,
            db@.files == Map::<FileId, FileData>::empty(),
            db.spec_revision() == 0,
    {
        Database {
            projects: Vec::new(),
            entries: Vec::new(),
            model: Ghost(Map::empty()),
            revision: 0,
        }
    }

    /// How many times an input has been set.
    pub fn revision(&self) -> (n: u64)
        ensures
            n == self.spec_revision(),
    {
        self.revision
    }

    /// Replaces the projects. The revision goes up by one.
    pub fn set_projects(&mut self, projects: Vec<Project>)
        requires
            old(self).wf(),
            old(self).spec_revision() < u64::MAX,
        ensures
            final(self).wf(),
            final(self)@ == old(self)@.with_projects(project_views(projects@)),
            final(self).spec_revision() == old(self).spec_revision() + 1,
    {
        self.projects = projects;
        self.revision = self.revision + 1;
    }

    fn find(&self, file: FileId) -> (r: Option<usize>)
        requires
            self.wf(),
        ensures
            match r {
                Some(k) => k < self.entries@.len() && self.entries@[k as int].file == file
                    && self@.files.contains_key(file),
                None => !self@.files.contains_key(file),
            },
    {
        let mut k: usize = 0;
        while k < self.entries.len()
            invariant
                self.wf(),
                k <= self.entries@.len(),
                forall|j: int| 0 <= j < k ==> (#[trigger] self.entries@[j]).file != file,
            decreases self.entries@.len() - k,
        {
            if self.entries[k].file.0 == file.0 {
                return Some(k);
            }
            k += 1;
        }
        None
    }

    /// Sets or replaces the data of a file and derives its items and item
    /// map. The revision goes up by one.
    pub fn set_file_data(&mut self, file: FileId, data: FileData)
        requires
            old(self).wf(),
            old(self).spec_revision() < u64::MAX,
            data.tree.root.children@.len() <= u32::MAX,
        ensures
            final(self).wf(),
            final(self)@ == old(self)@.with_file(file, data),
            final(self).spec_revision() == old(self).spec_revision() + 1,
    {
        let items = lower_file(data.text.as_str(), &data.tree);
        proof {
            lemma_lower_upto_len(
                data.text@,
                data.tree.root,
                ItemsView::empty(),
                data.tree.root.children@.len() as int,
            );
        }
        let map = item_map(&items);
        let entry = FileEntry { file, data, items, item_map: map };
        let found = self.find(file);
        let ghost old_entries = self.entries@;
        match found {
            Some(k) => {
                self.entries[k] = entry;
                proof {
                    assert(self.entries@ == old_entries.update(k as int, entry));
                }
            },
            None => {
                self.entries.push(entry);
            },
        }
        self.model = Ghost(self.model@.insert(file, data));
        self.revision = self.revision + 1;
        proof {
            assert forall|f: FileId| self.model@.contains_key(f) implies exists|k: int|
                0 <= k < self.entries@.len() && (#[trigger] self.entries@[k]).file == f by {
                if f == file {
                    match found {
                        Some(k) => {
                            assert(self.entries@[k as int].file == f);
                        },
                        None => {
                            assert(self.entries@[old_entries.len() as int].file == f);
                        },
                    }
                } else {
                    let k = choose|k: int|
                        0 <= k < old_entries.len() && (#[trigger] old_entries[k]).file == f;
                    assert(self.entries@[k].file == f);
                }
            }
        }
    }

    /// The projects.
    pub fn projects(&self) -> (projects: &Vec<Project>)
        ensures
            project_views(projects@) == self@.projects,
    {
        &self.projects
    }

    /// The data of a file, if it has any.
    pub fn file_data(&self, file: FileId) -> (r: Option<&FileData>)
        requires
            self.wf(),
        ensures
            match r {
                Some(data) => self@.files.contains_key(file) && *data == self@.files[file],
                None => !self@.files.contains_key(file),
            },
    {
        match self.find(file) {
            Some(k) => Some(&self.entries[k].data),
            None => None,
        }
    }

    /// The files of all projects: each member once, in rising order.
    pub fn files(&self) -> (files: Vec<FileId>)
        ensures
            strictly_sorted(files@),
            forall|g: FileId| files@.contains(g) <==> is_member(self@.projects, g),
    {
        all_files(&self.projects)
    }

    /// The neighborhood of a file: the files of every project that holds it,
    /// each once, in rising order.
    pub fn project_of(&self, file: FileId) -> (files: Vec<FileId>)
        ensures
            strictly_sorted(files@),
            forall|g: FileId| files@.contains(g) <==> neighbors(self@.projects, file, g),
    {
        neighborhood(&self.projects, file)
    }

    /// The items of a file, if it has data.
    pub fn items(&self, file: FileId) -> (r: Option<&Items>)
        requires
            self.wf(),
        ensures
            match r {
                Some(items) => self@.files.contains_key(file) && items@ == self@.items(file),
                None => !self@.files.contains_key(file),
            },
    {
        match self.find(file) {
            Some(k) => Some(&self.entries[k].items),
            None => None,
        }
    }

    /// The item that a reference points to, if there is one.
    pub fn item(&self, res: ItemRes) -> (r: Option<Item>)
        requires
            self.wf(),
        ensures
            match r {
                Some(item) => self@.files.contains_key(res.file) && res.idx < self@.items(
                    res.file,
                ).items.len() && item@ == self@.items(res.file).items[res.idx as int],
                None => !self@.files.contains_key(res.file) || res.idx >= self@.items(
                    res.file,
                ).items.len(),
            },
    {
        match self.items(res.file) {
            Some(items) => match items.item(res.idx) {
                Some(item) => Some(item.clone()),
                None => None,
            },
            None => None,
        }
    }

    /// The item map of a file, if it has data.
    pub fn item_map(&self, file: FileId) -> (r: Option<&ItemMap>)
        requires
            self.wf(),
        ensures
            match r {
                Some(map) => self@.files.contains_key(file) && map@ == self@.item_map(file),
                None => !self@.files.contains_key(file),
            },
    {
        match self.find(file) {
            Some(k) => Some(&self.entries[k].item_map),
            None => None,
        }
    }

    /// Appends the file's own items of the given name.
    fn push_definitions(&self, out: &mut Resolutions, file: FileId, name: &Name)
        requires
            self.wf(),
        ensures
            final(out)@ == old(out)@ + self@.definitions_in(file, name@.text),
    {
        let ghost names = self@.names(file);
        let ghost target = positions(names, name@.text, names.len() as int);
        proof {
            lemma_item_map_lookup(names, name@.text);
            if !names.contains(name@.text) {
                lemma_positions_empty(names, name@.text, names.len() as int);
            }
        }
        match self.item_map(file) {
            Some(map) => match map.get(name) {
                Some(indices) => {
                    let n = indices.len();
                    let mut j: usize = 0;
                    proof {
                        assert(old(out)@ + lift(file, target.subrange(0, 0)) =~= old(out)@);
                    }
                    while j < n
                        invariant
                            n == indices@.len(),
                            j <= n,
                            indices@ == target,
                            out@ == old(out)@ + lift(file, target.subrange(0, j as int)),
                        decreases n - j,
                    {
                        let idx = indices.get(j);
                        out.push(ItemRes { file, idx });
                        proof {
                            assert(old(out)@ + lift(file, target.subrange(0, j + 1)) =~= (old(out)@
                                + lift(file, target.subrange(0, j as int))).push(
                                ItemRes { file, idx },
                            ));
                        }
                        j += 1;
                    }
                    proof {
                        assert(target.subrange(0, n as int) =~= target);
                    }
                },
                None => {
                    proof {
                        assert(old(out)@ + lift(file, target) =~= old(out)@);
                    }
                },
            },
            None => {
                proof {
                    assert(old(out)@ + lift(file, target) =~= old(out)@);
                }
            },
        }
    }

    /// Resolves a name as seen from a file: every item of that name in the
    /// file's neighborhood, file after file in rising order of their ids and
    /// in item order within a file.
    pub fn resolve(&self, file: FileId, name: &Name) -> (r: Resolutions)
        requires
            self.wf(),
        ensures
            r@ == self@.resolve(file, name@.text),
    {
        let hood = self.project_of(file);
        let mut out = Resolutions::new();
        let mut i: usize = 0;
        let ghost mut lo: int = 0;
        while i < hood.len()
            invariant
                self.wf(),
                i <= hood@.len(),
                strictly_sorted(hood@),
                forall|g: FileId| hood@.contains(g) <==> neighbors(self@.projects, file, g),
                0 <= lo <= 0x1_0000_0000,
                i > 0 ==> lo == hood@[i - 1].0 + 1,
                i == 0 ==> lo == 0,
                out@ == self@.resolve_below(file, name@.text, lo),
            decreases hood@.len() - i,
        {
            let g = hood[i];
            proof {
                assert forall|h: FileId| lo <= h.0 < g.0 implies !neighbors(
                    self@.projects,
                    file,
                    h,
                ) by {
                    if hood@.contains(h) {
                        let j = choose|j: int| 0 <= j < hood@.len() && hood@[j] == h;
                        if j < i {
                            if j < i - 1 {
                                assert(hood@[j].0 < hood@[i - 1].0);
                            }
                        } else if j > i {
                            assert(hood@[i as int].0 < hood@[j].0);
                        }
                    }
                }
                lemma_resolve_gap(self@, file, name@.text, lo, g.0 as int);
                assert(hood@.contains(g));
                assert(FileId(((g.0 + 1) - 1) as u32) == g);
            }
            self.push_definitions(&mut out, g, name);
            proof {
                lo = g.0 + 1;
            }
            i += 1;
        }
        proof {
            assert forall|h: FileId| lo <= h.0 < 0x1_0000_0000 implies !neighbors(
                self@.projects,
                file,
                h,
            ) by {
                if hood@.contains(h) {
                    let j = choose|j: int| 0 <= j < hood@.len() && hood@[j] == h;
                    if j < i - 1 {
                        assert(hood@[j].0 < hood@[i - 1].0);
                    }
                }
            }
            lemma_resolve_gap(self@, file, name@.text, lo, 0x1_0000_0000);
        }
        out
    }

    /// Resolves a name to its items, or to `Unresolved` when there are none.
    pub fn resolve_item(&self, file: FileId, name: &Name) -> (r: Res)
        requires
            self.wf(),
        ensures
            match r {
                Res::Item(items) => items@ == self@.resolve(file, name@.text) && items@.len() > 0,
                Res::Unresolved => self@.resolve(file, name@.text).len() == 0,
            },
    {
        let items = self.resolve(file, name);
        if items.len() == 0 {
            Res::Unresolved
        } else {
            Res::Item(items)
        }
    }
}

} // verus!
