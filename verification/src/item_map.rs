//! The item map of a file: for each name, the items that define it.

use vstd::prelude::*;
use crate::ir::{Items, Name};
use crate::store::{item_at, IndexList};

verus! {

/// The indices below `upto` at which `name` stands in `names`, in rising order.
pub open spec fn positions(names: Seq<Seq<char>>, name: Seq<char>, upto: int) -> Seq<u32>
    decreases upto,
{
    if upto <= 0 {
        Seq::empty()
    } else if names[upto - 1] == name {
        positions(names, name, upto - 1).push((upto - 1) as u32)
    } else {
        positions(names, name, upto - 1)
    }
}

/// Whether the name at `i` also stands at an earlier index.
pub open spec fn occurs_before(names: Seq<Seq<char>>, i: int) -> bool {
    exists|j: int| 0 <= j < i && #[trigger] names[j] == names[i]
}

/// The entries that the first `upto` names give rise to: one for each name,
/// in the order of first occurrence, with all the positions of that name.
pub open spec fn entries_upto(names: Seq<Seq<char>>, upto: int) -> Seq<(Seq<char>, Seq<u32>)>
    decreases upto,
{
    if upto <= 0 {
        Seq::empty()
    } else if occurs_before(names, upto - 1) {
        entries_upto(names, upto - 1)
    } else {
        entries_upto(names, upto - 1).push(
            (names[upto - 1], positions(names, names[upto - 1], names.len() as int)),
        )
    }
}

/// The item map of a file whose items bear these names, in item order.
pub open spec fn item_map_of(names: Seq<Seq<char>>) -> Seq<(Seq<char>, Seq<u32>)> {
    entries_upto(names, names.len() as int)
}

/// The index of the first entry for `name` at or after `from`.
pub open spec fn find_entry(entries: Seq<(Seq<char>, Seq<u32>)>, name: Seq<char>, from: int) -> Option<
    int,
>
    decreases entries.len() - from,
{
    if from < 0 || from >= entries.len() {
        None
    } else if entries[from].0 == name {
        Some(from)
    } else {
        find_entry(entries, name, from + 1)
    }
}

/// The indices that a map holds for a name.
pub open spec fn lookup(entries: Seq<(Seq<char>, Seq<u32>)>, name: Seq<char>) -> Option<Seq<u32>> {
    match find_entry(entries, name, 0) {
        Some(k) => Some(entries[k].1),
        None => None,
    }
}

/// `positions` holds exactly the indices at which the name stands, it rises
/// strictly, and it is as long as there are such indices.
pub proof fn lemma_positions(names: Seq<Seq<char>>, name: Seq<char>, upto: int)
    requires
        0 <= upto <= names.len(),
        names.len() <= u32::MAX,
    ensures
        forall|i: u32|
            positions(names, name, upto).contains(i) <==> (i < upto && names[i as int] == name),
        forall|a: int, b: int|
            0 <= a < b < positions(names, name, upto).len() ==> positions(names, name, upto)[a]
                < positions(names, name, upto)[b],
        forall|a: int|
            0 <= a < positions(names, name, upto).len() ==> positions(names, name, upto)[a] < upto,
    decreases upto,
{
    if upto > 0 {
        lemma_positions(names, name, upto - 1);
        let prev = positions(names, name, upto - 1);
        let cur = positions(names, name, upto);
        if names[upto - 1] == name {
            let last = (upto - 1) as u32;
            assert(cur == prev.push(last));
            assert forall|i: u32| cur.contains(i) <==> (i < upto && names[i as int] == name) by {
                if cur.contains(i) {
                    let k = choose|k: int| 0 <= k < cur.len() && cur[k] == i;
                    if k < prev.len() {
                        assert(prev.contains(i));
                    }
                }
                if i < upto && names[i as int] == name {
                    if i == last {
                        assert(cur[prev.len() as int] == i);
                    } else {
                        assert(prev.contains(i));
                        let k = choose|k: int| 0 <= k < prev.len() && prev[k] == i;
                        assert(cur[k] == i);
                    }
                }
            }
        }
    } else {
        assert forall|i: u32| !positions(names, name, upto).contains(i) by {}
    }
}

/// A name that does not stand below `upto` has no positions there.
pub proof fn lemma_positions_empty(names: Seq<Seq<char>>, name: Seq<char>, upto: int)
    requires
        0 <= upto <= names.len(),
        forall|j: int| 0 <= j < upto ==> names[j] != name,
    ensures
        positions(names, name, upto) == Seq::<u32>::empty(),
    decreases upto,
{
    if upto > 0 {
        lemma_positions_empty(names, name, upto - 1);
    }
}

/// The entries for a prefix of the names hold an entry for a name exactly
/// when the name stands in that prefix, and then it is the first such entry
/// and holds all the positions of the name.
pub proof fn lemma_entries_lookup(names: Seq<Seq<char>>, name: Seq<char>, upto: int)
    requires
        0 <= upto <= names.len(),
    ensures
        lookup(entries_upto(names, upto), name) == if exists|j: int|
            0 <= j < upto && names[j] == name {
            Some(positions(names, name, names.len() as int))
        } else {
            None
        },
    decreases upto,
{
    let entries = entries_upto(names, upto);
    if upto > 0 {
        lemma_entries_lookup(names, name, upto - 1);
        let prev = entries_upto(names, upto - 1);
        let last = names[upto - 1];
        if occurs_before(names, upto - 1) {
            if last == name {
                let j = choose|j: int| 0 <= j < upto - 1 && #[trigger] names[j] == names[upto - 1];
                assert(0 <= j < upto - 1 && names[j] == name);
            }
        } else {
            let e = (last, positions(names, last, names.len() as int));
            assert(entries == prev.push(e));
            lemma_find_entry_push(prev, e, name, 0);
            if last == name {
                assert(0 <= upto - 1 < upto && names[upto - 1] == name);
                assert(!exists|j: int| 0 <= j < upto - 1 && names[j] == name);
            }
        }
    } else {
        assert(entries.len() == 0);
    }
}

proof fn lemma_find_entry_push(
    entries: Seq<(Seq<char>, Seq<u32>)>,
    e: (Seq<char>, Seq<u32>),
    name: Seq<char>,
    from: int,
)
    requires
        0 <= from <= entries.len(),
    ensures
        find_entry(entries.push(e), name, from) == match find_entry(entries, name, from) {
            Some(k) => Some(k),
            None => if e.0 == name {
                Some(entries.len() as int)
            } else {
                None
            },
        },
        find_entry(entries, name, from) matches Some(k) ==> from <= k < entries.len(),
    decreases entries.len() - from,
{
    let pushed = entries.push(e);
    if from < entries.len() {
        assert(pushed[from] == entries[from]);
        if entries[from].0 != name {
            lemma_find_entry_push(entries, e, name, from + 1);
        }
    } else {
        assert(pushed[from] == e);
        assert(find_entry(pushed, name, from + 1) is None);
    }
}

/// The item map of a file has one entry for each name that an item bears,
/// and it holds the indices of all the items of that name, in item order.
pub proof fn lemma_item_map_lookup(names: Seq<Seq<char>>, name: Seq<char>)
    ensures
        lookup(item_map_of(names), name) == if names.contains(name) {
            Some(positions(names, name, names.len() as int))
        } else {
            None
        },
{
    lemma_entries_lookup(names, name, names.len() as int);
    if names.contains(name) {
        let j = choose|j: int| 0 <= j < names.len() && names[j] == name;
        assert(0 <= j < names.len() as int && names[j] == name);
    }
}

/// Every entry of an item map holds at least one index.
pub proof fn lemma_item_map_nonempty(names: Seq<Seq<char>>, name: Seq<char>)
    requires
        names.len() <= u32::MAX,
        lookup(item_map_of(names), name) is Some,
    ensures
        lookup(item_map_of(names), name).unwrap().len() > 0,
{
    lemma_item_map_lookup(names, name);
    lemma_positions(names, name, names.len() as int);
    let j = choose|j: int| 0 <= j < names.len() && names[j] == name;
    assert(positions(names, name, names.len() as int).contains(j as u32));
}

/// Every entry of the entries for a prefix bears a name of that prefix.
proof fn lemma_entries_come_from_names(names: Seq<Seq<char>>, upto: int, k: int)
    requires
        0 <= upto <= names.len(),
        0 <= k < entries_upto(names, upto).len(),
    ensures
        exists|j: int| 0 <= j < upto && #[trigger] names[j] == entries_upto(names, upto)[k].0,
    decreases upto,
{
    if upto > 0 {
        let prev = entries_upto(names, upto - 1);
        if k < prev.len() {
            lemma_entries_come_from_names(names, upto - 1, k);
            let j = choose|j: int| 0 <= j < upto - 1 && #[trigger] names[j] == prev[k].0;
            assert(0 <= j < upto && names[j] == entries_upto(names, upto)[k].0);
        } else {
            assert(names[upto - 1] == entries_upto(names, upto)[k].0);
        }
    }
}

proof fn lemma_entries_distinct(names: Seq<Seq<char>>, upto: int)
    requires
        0 <= upto <= names.len(),
    ensures
        forall|a: int, b: int|
            0 <= a < b < entries_upto(names, upto).len() ==> (#[trigger] entries_upto(
                names,
                upto,
            )[a]).0 != (#[trigger] entries_upto(names, upto)[b]).0,
    decreases upto,
{
    if upto > 0 {
        lemma_entries_distinct(names, upto - 1);
        let prev = entries_upto(names, upto - 1);
        let cur = entries_upto(names, upto);
        if !occurs_before(names, upto - 1) {
            assert forall|a: int, b: int| 0 <= a < b < cur.len() implies (#[trigger] cur[a]).0 != (
            #[trigger] cur[b]).0 by {
                if b == prev.len() {
                    lemma_entries_come_from_names(names, upto - 1, a);
                    let j = choose|j: int| 0 <= j < upto - 1 && #[trigger] names[j] == prev[a].0;
                    assert(cur[a] == prev[a]);
                } else {
                    assert(cur[a] == prev[a] && cur[b] == prev[b]);
                }
            }
        }
    }
}

/// No two entries of an item map bear the same name.
pub proof fn lemma_item_map_keys_distinct(names: Seq<Seq<char>>)
    ensures
        forall|a: int, b: int|
            0 <= a < b < item_map_of(names).len() ==> (#[trigger] item_map_of(names)[a]).0 != (
            #[trigger] item_map_of(names)[b]).0,
{
    lemma_entries_distinct(names, names.len() as int);
}

/// One entry of an item map.
#[derive(Debug, PartialEq, Eq)]
pub struct ItemMapEntry {
    pub name: Name,
    pub indices: IndexList,
}

/// For each name that an item of the file bears, the indices of the items of
/// that name. Entries stand in the order in which the names first occur.
#[derive(Debug, PartialEq, Eq)]
pub struct ItemMap {
    entries: Vec<ItemMapEntry>,
}

impl View for ItemMap {
    type V = Seq<(Seq<char>, Seq<u32>)>;

    closed spec fn view(&self) -> Seq<(Seq<char>, Seq<u32>)> {
        self.entries@.map_values(|e: ItemMapEntry| (e.name@.text, e.indices@))
    }
}

impl ItemMap {
    /// The number of distinct names.
    pub fn len(&self) -> (n: usize)
        ensures
            n == self@.len(),
    {
        self.entries.len()
    }

    /// The name of the entry at a position.
    pub fn name_at(&self, k: usize) -> (name: &Name)
        requires
            k < self@.len(),
        ensures
            name@.text == self@[k as int].0,
    {
        &self.entries[k].name
    }

    /// The indices of the entry at a position.
    pub fn indices_at(&self, k: usize) -> (indices: &IndexList)
        requires
            k < self@.len(),
        ensures
            indices@ == self@[k as int].1,
    {
        &self.entries[k].indices
    }

    /// The indices of the items that bear the given name.
    pub fn get(&self, name: &Name) -> (r: Option<&IndexList>)
        ensures
            match r {
                Some(indices) => lookup(self@, name@.text) == Some(indices@),
                None => lookup(self@, name@.text) is None,
            },
    {
        let mut k: usize = 0;
        while k < self.entries.len()
            invariant
                k <= self.entries@.len(),
                self@.len() == self.entries@.len(),
                find_entry(self@, name@.text, 0) == find_entry(self@, name@.text, k as int),
            decreases self.entries@.len() - k,
        {
            if self.entries[k].name.same(name) {
                return Some(&self.entries[k].indices);
            }
            k += 1;
        }
        None
    }
}

/// Builds the item map of a file from its items.
pub fn item_map(items: &Items) -> (map: ItemMap)
    requires
        items@.items.len() <= u32::MAX,
    ensures
        map@ == item_map_of(items@.names()),
{
    let n = items.len();
    let ghost names = items@.names();
    let mut entries: Vec<ItemMapEntry> = Vec::new();
    let mut i: u32 = 0;
    while (i as usize) < n
        invariant
            n == items@.items.len(),
            n <= u32::MAX,
            names == items@.names(),
            i <= n,
            entries@.map_values(|e: ItemMapEntry| (e.name@.text, e.indices@)) == entries_upto(
                names,
                i as int,
            ),
        decreases n - i,
    {
        let item = item_at(&items.items, i);
        let mut seen = false;
        let mut j: u32 = 0;
        while j < i && !seen
            invariant
                n == items@.items.len(),
                names == items@.names(),
                j <= i < n,
                item@ == items@.items[i as int],
                seen ==> occurs_before(names, i as int),
                !seen ==> forall|k: int| 0 <= k < j ==> names[k] != names[i as int],
            decreases i - j + if seen { 0int } else { 1int },
        {
            let other = item_at(&items.items, j);
            if other.name.same(&item.name) {
                seen = true;
                proof {
                    assert(names[j as int] == names[i as int]);
                }
            } else {
                j += 1;
            }
        }
        if !seen {
            let mut indices = IndexList::new();
            let mut k: u32 = i;
            proof {
                lemma_positions_empty(names, names[i as int], i as int);
            }
            while (k as usize) < n
                invariant
                    n == items@.items.len(),
                    n <= u32::MAX,
                    names == items@.names(),
                    i <= k <= n,
                    i < n,
                    item@ == items@.items[i as int],
                    indices@ == positions(names, names[i as int], k as int),
                decreases n - k,
            {
                let other = item_at(&items.items, k);
                if other.name.same(&item.name) {
                    indices.push(k);
                }
                k += 1;
            }
            let ghost before = entries@;
            let entry = ItemMapEntry { name: item.name.clone(), indices };
            entries.push(entry);
            proof {
                assert(entries@.map_values(|e: ItemMapEntry| (e.name@.text, e.indices@))
                    =~= before.map_values(|e: ItemMapEntry| (e.name@.text, e.indices@)).push(
                    (names[i as int], positions(names, names[i as int], names.len() as int)),
                ));
            }
        }
        i += 1;
    }
    ItemMap { entries }
}

} // verus!
