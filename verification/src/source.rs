//! The inputs of every analysis: which files make up which project, and the
//! text and syntax tree of each file.

use vstd::prelude::*;
use crate::ir::FileId;
use crate::syntax::SyntaxTree;

verus! {

/// The text of a file with the syntax tree parsed from it.
#[derive(Debug, PartialEq, Eq)]
pub struct FileData {
    pub text: String,
    pub tree: SyntaxTree,
}

impl FileData {
    pub fn new(text: &str, tree: SyntaxTree) -> (data: FileData)
        ensures
            data.text@ == text@,
            data.tree == tree,
    {
        FileData { text: text.to_owned(), tree }
    }
}

/// A named set of files.
#[derive(Clone, Debug, PartialEq, Eq)]
pub struct Project {
    pub name: String,
    pub files: Vec<FileId>,
}

pub struct ProjectView {
    pub name: Seq<char>,
    pub files: Seq<FileId>,
}

impl View for Project {
    type V = ProjectView;

    open spec fn view(&self) -> ProjectView {
        ProjectView { name: self.name@, files: self.files@ }
    }
}

/// The views of a sequence of projects.
pub open spec fn project_views(s: Seq<Project>) -> Seq<ProjectView> {
    s.map_values(|p: Project| p@)
}

/// Whether some project holds both files.
pub open spec fn neighbors(projects: Seq<ProjectView>, f: FileId, g: FileId) -> bool {
    exists|p: int|
        0 <= p < projects.len() && (#[trigger] projects[p]).files.contains(f)
            && projects[p].files.contains(g)
}

/// Whether some project holds the file.
pub open spec fn is_member(projects: Seq<ProjectView>, g: FileId) -> bool {
    exists|p: int| 0 <= p < projects.len() && (#[trigger] projects[p]).files.contains(g)
}

/// A file is in its own neighborhood exactly when some project holds it.
pub proof fn lemma_neighborhood_holds_file(projects: Seq<ProjectView>, file: FileId)
    ensures
        neighbors(projects, file, file) <==> is_member(projects, file),
{
}

/// Neighborhoods are mutual: one file is a neighbor of another exactly when
/// the other is a neighbor of it.
pub proof fn lemma_neighbors_are_mutual(projects: Seq<ProjectView>, f: FileId, g: FileId)
    ensures
        neighbors(projects, f, g) <==> neighbors(projects, g, f),
{
}

/// Lists of files are kept in rising order of their ids, each file once.
pub open spec fn strictly_sorted(s: Seq<FileId>) -> bool {
    forall|i: int, j: int| 0 <= i < j < s.len() ==> s[i].0 < s[j].0
}

/// Whether a list of files holds a file.
pub fn contains_file(files: &Vec<FileId>, file: FileId) -> (b: bool)
    ensures
        b == files@.contains(file),
{
    let mut i: usize = 0;
    while i < files.len()
        invariant
            i <= files@.len(),
            forall|k: int| 0 <= k < i ==> files@[k] != file,
        decreases files@.len() - i,
    {
        if files[i].0 == file.0 {
            return true;
        }
        i += 1;
    }
    false
}

/// Adds a file to a sorted list, unless it is there already.
pub fn insert_sorted(files: &mut Vec<FileId>, file: FileId)
    requires
        strictly_sorted(old(files)@),
    ensures
        strictly_sorted(final(files)@),
        forall|g: FileId| final(files)@.contains(g) <==> (old(files)@.contains(g) || g == file),
{
    let mut i: usize = 0;
    while i < files.len() && files[i].0 < file.0
        invariant
            i <= files@.len(),
            files@ == old(files)@,
            forall|k: int| 0 <= k < i ==> files@[k].0 < file.0,
        decreases files@.len() - i,
    {
        i += 1;
    }
    if i < files.len() && files[i].0 == file.0 {
        proof {
            assert(files@[i as int] == file);
        }
        return ;
    }
    let ghost before = files@;
    files.insert(i, file);
    proof {
        let after = files@;
        assert(after == before.insert(i as int, file));
        assert forall|a: int, b: int| 0 <= a < b < after.len() implies after[a].0 < after[b].0 by {
            if a < i && b > i {
                assert(after[a] == before[a]);
                assert(after[b] == before[b - 1]);
            } else if a < i && b == i {
                assert(after[a] == before[a]);
            } else if a == i {
                assert(after[b] == before[b - 1]);
                assert(before[i as int].0 <= before[b - 1].0);
            } else if b < i {
                assert(after[a] == before[a]);
                assert(after[b] == before[b]);
            } else {
                assert(after[a] == before[a - 1]);
                assert(after[b] == before[b - 1]);
            }
        }
        assert forall|g: FileId| after.contains(g) <==> (before.contains(g) || g == file) by {
            if after.contains(g) {
                let k = choose|k: int| 0 <= k < after.len() && after[k] == g;
                if k < i {
                    assert(before[k] == g);
                } else if k > i {
                    assert(before[k - 1] == g);
                }
            }
            if before.contains(g) {
                let k = choose|k: int| 0 <= k < before.len() && before[k] == g;
                if k < i {
                    assert(after[k] == g);
                } else {
                    assert(after[k + 1] == g);
                }
            }
            if g == file {
                assert(after[i as int] == g);
            }
        }
    }
}

/// The files of all projects: each member once, in rising order.
pub fn all_files(projects: &Vec<Project>) -> (files: Vec<FileId>)
    ensures
        strictly_sorted(files@),
        forall|g: FileId| files@.contains(g) <==> is_member(project_views(projects@), g),
{
    let mut out: Vec<FileId> = Vec::new();
    let ghost views = project_views(projects@);
    let mut p: usize = 0;
    while p < projects.len()
        invariant
            p <= projects@.len(),
            views == project_views(projects@),
            strictly_sorted(out@),
            forall|g: FileId|
                out@.contains(g) <==> exists|q: int|
                    0 <= q < p && (#[trigger] views[q]).files.contains(g),
        decreases projects@.len() - p,
    {
        let project = &projects[p];
        let mut k: usize = 0;
        while k < project.files.len()
            invariant
                p < projects@.len(),
                views == project_views(projects@),
                *project == projects@[p as int],
                k <= project.files@.len(),
                strictly_sorted(out@),
                forall|g: FileId|
                    out@.contains(g) <==> ((exists|q: int|
                        0 <= q < p && (#[trigger] views[q]).files.contains(g)) || exists|j: int|
                        0 <= j < k && #[trigger] project.files@[j] == g),
            decreases project.files@.len() - k,
        {
            insert_sorted(&mut out, project.files[k]);
            k += 1;
        }
        proof {
            assert(views[p as int].files == project.files@);
            assert forall|g: FileId|
                out@.contains(g) <==> exists|q: int|
                    0 <= q < p + 1 && (#[trigger] views[q]).files.contains(g) by {
                if out@.contains(g) {
                    if exists|q: int| 0 <= q < p && (#[trigger] views[q]).files.contains(g) {
                        let q = choose|q: int|
                            0 <= q < p && (#[trigger] views[q]).files.contains(g);
                        assert(0 <= q < p + 1 && views[q].files.contains(g));
                    } else {
                        assert(views[p as int].files.contains(g));
                    }
                }
                if exists|q: int| 0 <= q < p + 1 && (#[trigger] views[q]).files.contains(g) {
                    let q = choose|q: int|
                        0 <= q < p + 1 && (#[trigger] views[q]).files.contains(g);
                    if q == p {
                        let j = choose|j: int|
                            0 <= j < project.files@.len() && project.files@[j] == g;
                        assert(0 <= j < k && project.files@[j] == g);
                    }
                }
            }
        }
        p += 1;
    }
    out
}

/// The neighborhood of a file: the files of every project that holds it,
/// each once, in rising order.
pub fn neighborhood(projects: &Vec<Project>, file: FileId) -> (files: Vec<FileId>)
    ensures
        strictly_sorted(files@),
        forall|g: FileId| files@.contains(g) <==> neighbors(project_views(projects@), file, g),
{
    let mut out: Vec<FileId> = Vec::new();
    let ghost views = project_views(projects@);
    let mut p: usize = 0;
    while p < projects.len()
        invariant
            p <= projects@.len(),
            views == project_views(projects@),
            strictly_sorted(out@),
            forall|g: FileId|
                out@.contains(g) <==> exists|q: int|
                    0 <= q < p && (#[trigger] views[q]).files.contains(file)
                        && views[q].files.contains(g),
        decreases projects@.len() - p,
    {
        let project = &projects[p];
        proof {
            assert(views[p as int].files == project.files@);
        }
        if contains_file(&project.files, file) {
            let mut k: usize = 0;
            while k < project.files.len()
                invariant
                    p < projects@.len(),
                    views == project_views(projects@),
                    *project == projects@[p as int],
                    k <= project.files@.len(),
                    strictly_sorted(out@),
                    forall|g: FileId|
                        out@.contains(g) <==> ((exists|q: int|
                            0 <= q < p && (#[trigger] views[q]).files.contains(file)
                                && views[q].files.contains(g)) || exists|j: int|
                            0 <= j < k && #[trigger] project.files@[j] == g),
                decreases project.files@.len() - k,
            {
                insert_sorted(&mut out, project.files[k]);
                k += 1;
            }
        }
        proof {
            assert forall|g: FileId|
                out@.contains(g) <==> exists|q: int|
                    0 <= q < p + 1 && (#[trigger] views[q]).files.contains(file)
                        && views[q].files.contains(g) by {
                if out@.contains(g) {
                    if exists|q: int|
                        0 <= q < p && (#[trigger] views[q]).files.contains(file)
                            && views[q].files.contains(g) {
                        let q = choose|q: int|
                            0 <= q < p && (#[trigger] views[q]).files.contains(file)
                                && views[q].files.contains(g);
                        assert(0 <= q < p + 1 && views[q].files.contains(file)
                            && views[q].files.contains(g));
                    } else {
                        assert(views[p as int].files.contains(file));
                        assert(views[p as int].files.contains(g));
                    }
                }
                if exists|q: int|
                    0 <= q < p + 1 && (#[trigger] views[q]).files.contains(file)
                        && views[q].files.contains(g) {
                    let q = choose|q: int|
                        0 <= q < p + 1 && (#[trigger] views[q]).files.contains(file)
                            && views[q].files.contains(g);
                    if q == p {
                        let j = choose|j: int|
                            0 <= j < project.files@.len() && project.files@[j] == g;
                        assert(0 <= j < project.files@.len() && project.files@[j] == g);
                    }
                }
            }
        }
        p += 1;
    }
    out
}

} // verus!
