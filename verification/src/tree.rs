//! A folder's contents as a tree to show.
//!
//! The tree is made from what reading the folders gave. Entries whose name
//! starts with a dot, and the folders `node_modules` and `target`, are left
//! out. What is left is put in order: folders first, then by name without
//! regard to case; entries that compare equal stay in the order in which
//! they were read. Below a given depth nothing is shown.

use vstd::prelude::*;
use vstd::string::*;
use vstd::utf8::encode_utf8;
use crate::text::{chars_of, lowercase, spells, to_lowercase};

verus! {

/// What reading a folder gave for one of its entries.
pub struct DirItem {
    /// The entry's name.
    pub name: String,
    /// The entry's path.
    pub path: String,
    /// Whether the entry is a folder.
    pub is_dir: bool,
    /// What reading the entry gave, where it is a folder that was read.
    pub contents: Vec<DirItem>,
}

/// What reading a folder gave for one of its entries, with its texts as
/// sequences of characters.
pub struct Found {
    pub name: Seq<char>,
    pub path: Seq<char>,
    pub is_dir: bool,
    pub contents: Seq<Found>,
}

impl Found {
    /// An entry of which nothing was read.
    pub open spec fn leaf(name: Seq<char>, path: Seq<char>, is_dir: bool) -> Found {
        Found { name, path, is_dir, contents: Seq::empty() }
    }
}

impl DirItem {
    /// What this item stands for.
    pub open spec fn found(self) -> Found
        decreases self,
    {
        Found {
            name: self.name@,
            path: self.path@,
            is_dir: self.is_dir,
            contents: Seq::new(
                self.contents.len() as nat,
                |i: int|
                    if 0 <= i < self.contents.len() {
                        self.contents[i].found()
                    } else {
                        Found::leaf(Seq::empty(), Seq::empty(), false)
                    },
            ),
        }
    }
}

impl View for DirItem {
    type V = Found;

    open spec fn view(&self) -> Found {
        self.found()
    }
}

/// What `items` stand for.
pub open spec fn found_all(items: Seq<DirItem>) -> Seq<Found> {
    items.map_values(|item: DirItem| item@)
}

/// A node of the tree that is shown.
#[derive(Debug, PartialEq, Eq)]
pub struct FileEntry {
    /// The entry's name.
    pub name: String,
    /// The entry's path.
    pub path: String,
    /// Whether the entry is a folder.
    pub is_dir: bool,
    /// What the folder holds, in the order in which it is shown. A file
    /// has none.
    pub children: Option<Vec<FileEntry>>,
}

/// A node of the tree that is shown, with its texts as sequences of
/// characters.
pub struct Listed {
    pub name: Seq<char>,
    pub path: Seq<char>,
    pub is_dir: bool,
    pub children: Option<Seq<Listed>>,
}

impl Listed {
    /// A file, which holds nothing.
    pub open spec fn file(name: Seq<char>, path: Seq<char>) -> Listed {
        Listed { name, path, is_dir: false, children: None }
    }
}

impl FileEntry {
    /// The node that this entry stands for.
    pub open spec fn listed(self) -> Listed
        decreases self,
    {
        Listed {
            name: self.name@,
            path: self.path@,
            is_dir: self.is_dir,
            children: match self.children {
                Some(children) => Some(
                    Seq::new(
                        children.len() as nat,
                        |i: int|
                            if 0 <= i < children.len() {
                                children[i].listed()
                            } else {
                                Listed::file(Seq::empty(), Seq::empty())
                            },
                    ),
                ),
                None => None,
            },
        }
    }
}

impl View for FileEntry {
    type V = Listed;

    open spec fn view(&self) -> Listed {
        self.listed()
    }
}

/// The deepest level of folders that is listed. The folder that was asked
/// for is level 0.
pub const MAX_DEPTH: u32 = 10;

/// Entries with such a name are not shown: hidden ones, whose name starts
/// with a dot, and two folders that hold nothing to edit.
pub open spec fn is_skipped(name: Seq<char>) -> bool {
    ||| (name.len() > 0 && name[0] == '.')
    ||| name == "node_modules"@
    ||| name == "target"@
}

/// What a name is ordered by: its lower case, as UTF-8.
pub open spec fn sort_name(name: Seq<char>) -> Seq<u8> {
    encode_utf8(lowercase(name))
}

/// `a` and `b` agree on their first `at` bytes, and there `a` ends while
/// `b` goes on, or `a` has the smaller byte.
pub open spec fn parts_at(a: Seq<u8>, b: Seq<u8>, at: int) -> bool {
    &&& 0 <= at <= a.len()
    &&& at <= b.len()
    &&& forall|i: int| 0 <= i < at ==> a[i] == b[i]
    &&& (at == a.len() && at < b.len()) || (at < a.len() && at < b.len() && a[at] < b[at])
}

/// `a` comes before `b` as words come in a dictionary, byte by byte.
pub open spec fn bytes_before(a: Seq<u8>, b: Seq<u8>) -> bool {
    exists|at: int| parts_at(a, b, at)
}

/// An entry of the first kind and name is shown before one of the second:
/// a folder before a file; of two folders or two files, the one whose name
/// comes first.
pub open spec fn shown_before(
    a_is_dir: bool,
    a_name: Seq<char>,
    b_is_dir: bool,
    b_name: Seq<char>,
) -> bool {
    ||| (a_is_dir && !b_is_dir)
    ||| (a_is_dir == b_is_dir && bytes_before(sort_name(a_name), sort_name(b_name)))
}

/// `a` is shown before `b`.
pub open spec fn precedes(a: Found, b: Found) -> bool {
    shown_before(a.is_dir, a.name, b.is_dir, b.name)
}

/// The entries that are shown, in the order in which they were read.
pub open spec fn kept(items: Seq<Found>) -> Seq<Found>
    decreases items.len(),
{
    if items.len() == 0 {
        Seq::<Found>::empty()
    } else if is_skipped(items.last().name) {
        kept(items.drop_last())
    } else {
        kept(items.drop_last()).push(items.last())
    }
}

/// Where `item` goes into entries that are in order: in front of the first
/// one that it is shown before, and at the end where there is none.
pub open spec fn place_of(ordered: Seq<Found>, item: Found) -> int
    decreases ordered.len(),
{
    if ordered.len() == 0 {
        0
    } else if precedes(item, ordered[0]) {
        0
    } else {
        1 + place_of(ordered.drop_first(), item)
    }
}

/// The entries put in order, each one in turn going to its place among
/// those before it.
pub open spec fn arranged(items: Seq<Found>) -> Seq<Found>
    decreases items.len(),
{
    if items.len() == 0 {
        Seq::<Found>::empty()
    } else {
        let before = arranged(items.drop_last());
        before.insert(place_of(before, items.last()), items.last())
    }
}

/// The tree that is shown of the entries `items` of a folder at level
/// `depth`, where levels down to `max_depth` are shown. A folder at the
/// last level is shown empty.
pub open spec fn listing(items: Seq<Found>, depth: nat, max_depth: nat) -> Seq<Listed>
    decreases max_depth + 1 - depth,
{
    if depth > max_depth {
        Seq::<Listed>::empty()
    } else {
        let shown = arranged(kept(items));
        Seq::new(
            shown.len(),
            |k: int|
                Listed {
                    name: shown[k].name,
                    path: shown[k].path,
                    is_dir: shown[k].is_dir,
                    children: if shown[k].is_dir {
                        Some(listing(shown[k].contents, depth + 1, max_depth))
                    } else {
                        None
                    },
                },
        )
    }
}

/// The nodes that `entries` stand for.
pub open spec fn views(entries: Seq<FileEntry>) -> Seq<Listed> {
    entries.map_values(|entry: FileEntry| entry@)
}

/// The items that `order` picks out of `items`.
pub open spec fn picked(items: Seq<DirItem>, order: Seq<usize>) -> Seq<Found> {
    order.map_values(|at: usize| items[at as int]@)
}

/// Whether the folder called `name`, found at level `depth`, is read: it is
/// a folder that is shown, and the level below it still is.
pub open spec fn is_read(name: Seq<char>, is_dir: bool, depth: nat, max_depth: nat) -> bool {
    is_dir && !is_skipped(name) && depth < max_depth
}

/// Whether an entry with this name is left out.
pub fn is_skipped_name(name: &str) -> (skipped: bool)
    ensures
        skipped == is_skipped(name@),
{
    let chars = chars_of(name);
    (chars.len() > 0 && chars[0] == '.') || spells(&chars, "node_modules") || spells(
        &chars,
        "target",
    )
}

/// Whether an entry found at level `depth` of the tree is to be read, so
/// that what it holds can be shown.
pub fn reads_into(name: &str, is_dir: bool, depth: u32, max_depth: u32) -> (read: bool)
    ensures
        read == is_read(name@, is_dir, depth as nat, max_depth as nat),
{
    is_dir && depth < max_depth && !is_skipped_name(name)
}

/// What the entry called `name` is ordered by.
pub fn sort_key(name: &str) -> (key: Vec<u8>)
    ensures
        key@ == sort_name(name@),
{
    let lowered = to_lowercase(name);
    lowered.as_str().as_bytes_vec()
}

/// Whether `a` comes before `b` as words come in a dictionary.
pub fn is_before(a: &Vec<u8>, b: &Vec<u8>) -> (before: bool)
    ensures
        before == bytes_before(a@, b@),
{
    let mut i: usize = 0;
    while i < a.len() && i < b.len() && a[i] == b[i]
        invariant
            i <= a.len(),
            i <= b.len(),
            forall|j: int| 0 <= j < i ==> a@[j] == b@[j],
        decreases a.len() - i,
    {
        i += 1;
    }
    let before = (i == a.len() && i < b.len()) || (i < a.len() && i < b.len() && a[i] < b[i]);
    proof {
        if before {
            assert(parts_at(a@, b@, i as int));
        } else {
            assert forall|at: int| !parts_at(a@, b@, at) by {
                if parts_at(a@, b@, at) {
                    if at < i {
                        assert(a@[at] == b@[at]);
                    } else if at > i {
                        assert(a@[i as int] == b@[i as int]);
                    }
                }
            }
        }
    }
    before
}

/// Where the item with the given kind and key goes among the items that
/// `order` picks, which are in order and whose keys are `keys`.
fn find_place(
    items: &Vec<DirItem>,
    order: &Vec<usize>,
    keys: &Vec<Vec<u8>>,
    at: usize,
    key: &Vec<u8>,
) -> (place: usize)
    requires
        at < items.len(),
        key@ == sort_name(items[at as int].name@),
        keys.len() == order.len(),
        forall|j: int| 0 <= j < order.len() ==> order[j] < items.len(),
        forall|j: int|
            0 <= j < order.len() ==> (#[trigger] keys[j])@ == sort_name(
                items[order[j] as int].name@,
            ),
    ensures
        place <= order.len(),
        place == place_of(picked(items@, order@), items[at as int]@),
{
    let ghost ordered = picked(items@, order@);
    let ghost item = items[at as int]@;
    let mut place: usize = 0;
    assert(ordered.skip(0) == ordered);
    while place < order.len()
        invariant
            place <= order.len(),
            at < items.len(),
            item == items[at as int]@,
            ordered == picked(items@, order@),
            key@ == sort_name(item.name),
            keys.len() == order.len(),
            forall|j: int| 0 <= j < order.len() ==> order[j] < items.len(),
            forall|j: int|
                0 <= j < order.len() ==> (#[trigger] keys[j])@ == sort_name(
                    items[order[j] as int].name@,
                ),
            place_of(ordered, item) == place + place_of(ordered.skip(place as int), item),
        decreases order.len() - place,
    {
        let other = &items[order[place]];
        let ghost rest = ordered.skip(place as int);
        assert(rest[0] == other@);
        let first = (items[at].is_dir && !other.is_dir) || (items[at].is_dir == other.is_dir
            && is_before(key, &keys[place]));
        assert(first == precedes(item, rest[0]));
        if first {
            return place;
        }
        assert(rest.drop_first() == ordered.skip(place as int + 1));
        place += 1;
    }
    assert(ordered.skip(place as int).len() == 0);
    place
}

/// Which of `items` are shown, in the order in which they are shown: each
/// number is the place of an item in `items`.
pub fn shown_order(items: &Vec<DirItem>) -> (order: Vec<usize>)
    ensures
        forall|j: int| 0 <= j < order.len() ==> order[j] < items.len(),
        picked(items@, order@) == arranged(kept(found_all(items@))),
{
    let ghost all = found_all(items@);
    let mut order: Vec<usize> = Vec::new();
    let mut keys: Vec<Vec<u8>> = Vec::new();
    let mut at: usize = 0;
    assert(picked(items@, order@) == arranged(kept(all.take(0))));
    while at < items.len()
        invariant
            at <= items.len(),
            keys.len() == order.len(),
            forall|j: int| 0 <= j < order.len() ==> order[j] < items.len(),
            forall|j: int|
                0 <= j < order.len() ==> (#[trigger] keys[j])@ == sort_name(
                    items[order[j] as int].name@,
                ),
            all == found_all(items@),
            picked(items@, order@) == arranged(kept(all.take(at as int))),
        decreases items.len() - at,
    {
        let item = &items[at];
        proof {
            let upto = all.take(at as int + 1);
            assert(upto.drop_last() == all.take(at as int));
            assert(upto.last() == item@);
        }
        if !is_skipped_name(item.name.as_str()) {
            let key = sort_key(item.name.as_str());
            let place = find_place(items, &order, &keys, at, &key);
            let ghost before = picked(items@, order@);
            proof {
                let grown = kept(all.take(at as int)).push(item@);
                assert(grown.drop_last() == kept(all.take(at as int)));
                assert(grown.last() == item@);
            }
            order.insert(place, at);
            keys.insert(place, key);
            assert(picked(items@, order@) == before.insert(place as int, item@));
        }
        at += 1;
    }
    assert(all.take(at as int) == all);
    order
}

/// What an item holds stands for what its contents stand for.
pub proof fn lemma_contents_found(item: DirItem)
    ensures
        item@.contents == found_all(item.contents@),
{
    let contents = item@.contents;
    assert(contents.len() == item.contents.len());
    assert forall|i: int| 0 <= i < contents.len() implies contents[i] == found_all(
        item.contents@,
    )[i] by {
        assert(contents[i] == item.contents[i].found());
    }
    assert(contents =~= found_all(item.contents@));
}

proof fn lemma_children_views(entry: FileEntry)
    ensures
        entry@.children == match entry.children {
            Some(children) => Some(views(children@)),
            None => None,
        },
{
    match entry.children {
        Some(children) => {
            let shown = entry@.children->0;
            assert(shown.len() == children.len());
            assert forall|i: int| 0 <= i < shown.len() implies shown[i] == views(children@)[i] by {
                assert(shown[i] == children[i].listed());
            }
            assert(shown =~= views(children@));
        },
        None => {},
    }
}

/// Makes the tree that is shown of the entries `items` of a folder at level
/// `depth`, where levels down to `max_depth` are shown.
pub fn build_file_tree(items: &Vec<DirItem>, depth: u32, max_depth: u32) -> (entries: Vec<
    FileEntry,
>)
    ensures
        views(entries@) == listing(found_all(items@), depth as nat, max_depth as nat),
    decreases max_depth + 1 - depth,
{
    if depth > max_depth {
        let nothing: Vec<FileEntry> = Vec::new();
        assert(views(nothing@) == Seq::<Listed>::empty());
        return nothing;
    }
    let order = shown_order(items);
    let ghost shown = arranged(kept(found_all(items@)));
    let ghost whole = listing(found_all(items@), depth as nat, max_depth as nat);
    let mut entries: Vec<FileEntry> = Vec::new();
    let mut k: usize = 0;
    while k < order.len()
        invariant
            k <= order.len(),
            depth <= max_depth,
            entries.len() == k,
            shown == arranged(kept(found_all(items@))),
            shown == picked(items@, order@),
            whole == listing(found_all(items@), depth as nat, max_depth as nat),
            forall|j: int| 0 <= j < order.len() ==> order[j] < items.len(),
            forall|j: int| 0 <= j < k ==> (#[trigger] entries[j])@ == whole[j],
        decreases order.len() - k,
    {
        let item = &items[order[k]];
        assert(shown[k as int] == item@);
        proof {
            lemma_contents_found(*item);
        }
        let children = if item.is_dir {
            if depth < max_depth {
                Some(build_file_tree(&item.contents, depth + 1, max_depth))
            } else {
                let nothing: Vec<FileEntry> = Vec::new();
                assert(views(nothing@) == listing(
                    item@.contents,
                    depth as nat + 1,
                    max_depth as nat,
                ));
                Some(nothing)
            }
        } else {
            None
        };
        let entry = FileEntry {
            name: item.name.clone(),
            path: item.path.clone(),
            is_dir: item.is_dir,
            children,
        };
        proof {
            lemma_children_views(entry);
            assert(entry@ == whole[k as int]);
        }
        entries.push(entry);
        k += 1;
    }
    assert(views(entries@) =~= whole);
    entries
}

/// Makes the tree that is shown of a folder whose entries are `items`.
pub fn list_directory(items: &Vec<DirItem>) -> (entries: Vec<FileEntry>)
    ensures
        views(entries@) == listing(found_all(items@), 0, MAX_DEPTH as nat),
{
    build_file_tree(items, 0, MAX_DEPTH)
}


/// Nothing in `items` stands behind an item that it is shown before.
pub open spec fn in_order(items: Seq<Found>) -> bool {
    forall|i: int, j: int| 0 <= i < j < items.len() ==> !precedes(items[j], items[i])
}

/// A tree as it may be shown, `levels` levels deep at most: at each level
/// no entry is one that is left out, no entry stands behind one that it is
/// shown before, and the folders are the entries that hold something, be
/// it nothing.
pub open spec fn well_listed(entries: Seq<Listed>, levels: nat) -> bool
    decreases levels,
{
    if levels == 0 {
        entries.len() == 0
    } else {
        &&& forall|i: int, j: int|
            0 <= i < j < entries.len() ==> !shown_before(
                entries[j].is_dir,
                entries[j].name,
                entries[i].is_dir,
                entries[i].name,
            )
        &&& forall|k: int|
            0 <= k < entries.len() ==> {
                let entry = #[trigger] entries[k];
                &&& !is_skipped(entry.name)
                &&& entry.is_dir <==> entry.children is Some
                &&& entry.children matches Some(children) ==> well_listed(
                    children,
                    (levels - 1) as nat,
                )
            }
    }
}

/// The order of the bytes is strict: nothing comes before itself, and what
/// comes before something that comes before a third comes before the
/// third.
pub proof fn lemma_bytes_before_is_strict(a: Seq<u8>, b: Seq<u8>, c: Seq<u8>)
    ensures
        !bytes_before(a, a),
        bytes_before(a, b) && bytes_before(b, c) ==> bytes_before(a, c),
{
    assert forall|at: int| !parts_at(a, a, at) by {}
    if bytes_before(a, b) && bytes_before(b, c) {
        let first = choose|at: int| parts_at(a, b, at);
        let second = choose|at: int| parts_at(b, c, at);
        if first <= second {
            assert(parts_at(a, c, first));
        } else {
            assert(a[second] == b[second]);
            assert(parts_at(a, c, second));
        }
    }
}

/// The order in which entries are shown is strict.
pub proof fn law_order_is_strict(a: Found, b: Found, c: Found)
    ensures
        !precedes(a, a),
        precedes(a, b) && precedes(b, c) ==> precedes(a, c),
{
    lemma_bytes_before_is_strict(sort_name(a.name), sort_name(b.name), sort_name(c.name));
}

proof fn lemma_place(ordered: Seq<Found>, item: Found)
    ensures
        0 <= place_of(ordered, item) <= ordered.len(),
        forall|m: int| 0 <= m < place_of(ordered, item) ==> !precedes(item, ordered[m]),
        place_of(ordered, item) < ordered.len() ==> precedes(
            item,
            ordered[place_of(ordered, item)],
        ),
    decreases ordered.len(),
{
    if ordered.len() > 0 && !precedes(item, ordered[0]) {
        let rest = ordered.drop_first();
        lemma_place(rest, item);
        assert forall|m: int| 0 <= m < place_of(ordered, item) implies !precedes(
            item,
            ordered[m],
        ) by {
            if m > 0 {
                assert(rest[m - 1] == ordered[m]);
            }
        }
        if place_of(ordered, item) < ordered.len() {
            assert(rest[place_of(rest, item)] == ordered[place_of(ordered, item)]);
        }
    }
}

/// Putting entries in order loses none and adds none.
pub proof fn law_arranged_holds_the_same(items: Seq<Found>)
    ensures
        arranged(items).len() == items.len(),
        arranged(items).to_multiset() == items.to_multiset(),
    decreases items.len(),
{
    if items.len() > 0 {
        let before = arranged(items.drop_last());
        law_arranged_holds_the_same(items.drop_last());
        lemma_place(before, items.last());
        vstd::seq_lib::to_multiset_insert(before, place_of(before, items.last()), items.last());
        vstd::seq_lib::to_multiset_build(items.drop_last(), items.last());
        assert(items.drop_last().push(items.last()) == items);
    } else {
        assert(items == Seq::<Found>::empty());
    }
}

/// Entries put in order are in order: folders stand before files, and
/// among folders and among files the names ascend.
pub proof fn law_arranged_is_in_order(items: Seq<Found>)
    ensures
        in_order(arranged(items)),
    decreases items.len(),
{
    if items.len() > 0 {
        let before = arranged(items.drop_last());
        let item = items.last();
        let place = place_of(before, item);
        let after = before.insert(place, item);
        law_arranged_is_in_order(items.drop_last());
        lemma_place(before, item);
        assert forall|i: int, j: int| 0 <= i < j < after.len() implies !precedes(
            after[j],
            after[i],
        ) by {
            if j == place {
                assert(after[i] == before[i]);
            } else if i == place {
                assert(after[j] == before[j - 1]);
                law_order_is_strict(before[j - 1], item, before[place]);
                law_order_is_strict(item, before[place], item);
            } else {
                let from = if i < place { i } else { i - 1 };
                let to = if j < place { j } else { j - 1 };
                assert(after[i] == before[from]);
                assert(after[j] == before[to]);
            }
        }
    }
}

/// None of the entries that are kept is one that is left out.
pub proof fn law_kept_holds_no_skipped(items: Seq<Found>)
    ensures
        forall|k: int| 0 <= k < kept(items).len() ==> !is_skipped((#[trigger] kept(items)[k]).name),
    decreases items.len(),
{
    if items.len() > 0 {
        let before = kept(items.drop_last());
        law_kept_holds_no_skipped(items.drop_last());
        assert forall|k: int| 0 <= k < kept(items).len() implies !is_skipped(
            (#[trigger] kept(items)[k]).name,
        ) by {
            if k < before.len() {
                assert(kept(items)[k] == before[k]);
            }
        }
    }
}

/// The tree that is made is one that may be shown. Made at level `depth`
/// it is no deeper than the levels that are left: from level 0 with levels
/// down to 10 shown, entries stand on eleven levels and on none below.
pub proof fn law_listing_is_well_listed(items: Seq<Found>, depth: nat, max_depth: nat)
    requires
        depth <= max_depth + 1,
    ensures
        well_listed(listing(items, depth, max_depth), (max_depth + 1 - depth) as nat),
    decreases max_depth + 1 - depth,
{
    if depth <= max_depth {
        let shown = arranged(kept(items));
        let entries = listing(items, depth, max_depth);
        law_kept_holds_no_skipped(items);
        law_arranged_holds_the_same(kept(items));
        law_arranged_is_in_order(kept(items));
        assert forall|k: int| 0 <= k < entries.len() implies {
            let entry = #[trigger] entries[k];
            &&& !is_skipped(entry.name)
            &&& entry.is_dir <==> entry.children is Some
            &&& entry.children matches Some(children) ==> well_listed(
                children,
                (max_depth - depth) as nat,
            )
        } by {
            assert(shown.contains(shown[k]));
            vstd::seq_lib::to_multiset_contains(shown, shown[k]);
            vstd::seq_lib::to_multiset_contains(kept(items), shown[k]);
            let from = choose|m: int| 0 <= m < kept(items).len() && kept(items)[m] == shown[k];
            assert(!is_skipped(kept(items)[from].name));
            if shown[k].is_dir {
                law_listing_is_well_listed(shown[k].contents, depth + 1, max_depth);
            }
        }
        assert forall|i: int, j: int| 0 <= i < j < entries.len() implies !shown_before(
            entries[j].is_dir,
            entries[j].name,
            entries[i].is_dir,
            entries[i].name,
        ) by {
            assert(!precedes(shown[j], shown[i]));
        }
    }
}

/// What a folder holds that is not read has no part in the tree: an entry
/// that is a file, or that stands on the last level, is shown the same
/// whatever is handed in as its contents.
pub proof fn law_unread_contents_do_not_show(item: Found, depth: nat, max_depth: nat)
    requires
        depth <= max_depth,
        !is_skipped(item.name),
        !is_read(item.name, item.is_dir, depth, max_depth),
    ensures
        listing(seq![item], depth, max_depth) == seq![
            Listed {
                name: item.name,
                path: item.path,
                is_dir: item.is_dir,
                children: if item.is_dir {
                    Some(Seq::<Listed>::empty())
                } else {
                    None
                },
            },
        ],
{
    let one = seq![item];
    assert(one.drop_last() == Seq::<Found>::empty());
    assert(kept(one) == one) by {
        assert(kept(one.drop_last()) == Seq::<Found>::empty());
        assert(Seq::<Found>::empty().push(item) == one);
    }
    assert(arranged(one) == one) by {
        assert(arranged(one.drop_last()) == Seq::<Found>::empty());
        assert(Seq::<Found>::empty().insert(0, item) == one);
    }
    assert(item.is_dir ==> listing(item.contents, depth + 1, max_depth) == Seq::<Listed>::empty());
    assert(listing(one, depth, max_depth) =~= seq![
        Listed {
            name: item.name,
            path: item.path,
            is_dir: item.is_dir,
            children: if item.is_dir {
                Some(Seq::<Listed>::empty())
            } else {
                None
            },
        },
    ]);
}

} // verus!
