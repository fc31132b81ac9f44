//! Reading a tree of folders, one folder at a time.
//!
//! A walk says which folder it wants read next and is handed what reading
//! it gave. It asks for the folder that was to be listed, then for each
//! folder below it that the tree shows, parent before child and each
//! folder's entries in the order in which they were read. It never asks
//! for a folder that is left out of the tree or that lies below the last
//! level. When it wants nothing more, the tree is made.

use vstd::prelude::*;
use crate::tree::{
    build_file_tree, found_all, is_read, lemma_contents_found, listing, reads_into, views,
    DirItem, FileEntry, Found,
};

verus! {

/// What reading a folder gives for one of its entries.
pub struct RawEntry {
    /// The entry's name.
    pub name: String,
    /// The entry's path.
    pub path: String,
    /// Whether the entry is a folder.
    pub is_dir: bool,
}

impl RawEntry {
    /// The entry with `contents` as what reading it gave.
    pub open spec fn holding(self, contents: Seq<Found>) -> Found {
        Found { name: self.name@, path: self.path@, is_dir: self.is_dir, contents }
    }
}

/// A folder that is being gone through: what reading it gave, and the
/// entries that are done, each with what it holds. The entries are taken
/// in the order in which they were read, so the next one to take is the
/// one behind those that are done.
pub struct LevelState {
    pub entries: Seq<RawEntry>,
    pub items: Seq<Found>,
}

impl LevelState {
    /// There is an entry that is not done.
    pub open spec fn has_next(self) -> bool {
        self.items.len() < self.entries.len()
    }

    /// The first entry that is not done.
    pub open spec fn next(self) -> RawEntry {
        self.entries[self.items.len() as int]
    }

    /// The level, which is `depth` levels below the folder that is listed,
    /// waits for its next entry to be read.
    pub open spec fn waits(self, depth: nat, max_depth: nat) -> bool {
        self.has_next() && is_read(self.next().name@, self.next().is_dir, depth, max_depth)
    }

    /// The level with its next entry done, holding `contents`.
    pub open spec fn with_next_done(self, contents: Seq<Found>) -> LevelState {
        LevelState { entries: self.entries, items: self.items.push(self.next().holding(contents)) }
    }
}

/// Takes the walk on from a folder that was just read: entries that are
/// not to be read are done as they come; at the first one that is to be
/// read the walk stops, to have it read; a folder whose entries are all
/// done is itself done, as an entry of the folder above it. The folder at
/// the top stays when it is done.
pub open spec fn settle(levels: Seq<LevelState>, max_depth: nat) -> Seq<LevelState>
    decreases levels.len(), levels.last().entries.len() - levels.last().items.len(),
{
    if levels.len() == 0 {
        levels
    } else {
        let inner = levels.last();
        if inner.has_next() {
            if inner.waits((levels.len() - 1) as nat, max_depth) {
                levels
            } else {
                settle(
                    levels.drop_last().push(inner.with_next_done(Seq::<Found>::empty())),
                    max_depth,
                )
            }
        } else if levels.len() == 1 {
            levels
        } else {
            let outer = levels[levels.len() - 2];
            settle(
                levels.drop_last().drop_last().push(outer.with_next_done(inner.items)),
                max_depth,
            )
        }
    }
}

/// A walk: the folder that is listed, how deep the tree goes, and the
/// folders that are being gone through, the one that is listed first and
/// each of the others inside the one before it.
pub struct WalkState {
    pub root: Seq<char>,
    pub max_depth: nat,
    pub levels: Seq<LevelState>,
}

impl WalkState {
    /// The path of the folder that the walk wants read: at first the
    /// folder that is listed, then the next entry of the innermost folder,
    /// and none once the folder that is listed is done.
    pub open spec fn wanted(self) -> Option<Seq<char>> {
        if self.levels.len() == 0 {
            Some(self.root)
        } else if self.levels.last().has_next() {
            Some(self.levels.last().next().path@)
        } else {
            None
        }
    }

    /// The walk after it was handed `entries` as what reading the wanted
    /// folder gave. A walk that wants nothing stays as it is.
    pub open spec fn supplied(self, entries: Seq<RawEntry>) -> WalkState {
        if self.wanted() is None {
            self
        } else {
            WalkState {
                root: self.root,
                max_depth: self.max_depth,
                levels: settle(
                    self.levels.push(LevelState { entries, items: Seq::<Found>::empty() }),
                    self.max_depth,
                ),
            }
        }
    }

    /// The walk stands where it can be left: every folder that is being
    /// gone through waits for an entry that is to be read, and so lies no
    /// deeper than the tree goes; or the folder that is listed is done and
    /// is the only one.
    pub open spec fn at_rest(self) -> bool {
        forall|d: int|
            0 <= d < self.levels.len() ==> {
                let level = #[trigger] self.levels[d];
                ||| level.waits(d as nat, self.max_depth)
                ||| (self.levels.len() == 1 && level.items.len() == level.entries.len())
            }
    }
}

struct Level {
    entries: Vec<RawEntry>,
    items: Vec<DirItem>,
}

impl View for Level {
    type V = LevelState;

    closed spec fn view(&self) -> LevelState {
        LevelState { entries: self.entries@, items: found_all(self.items@) }
    }
}

spec fn level_views(levels: Seq<Level>) -> Seq<LevelState> {
    levels.map_values(|level: Level| level@)
}

/// A walk through the folders of a tree.
pub struct TreeWalk {
    root: String,
    max_depth: u32,
    levels: Vec<Level>,
}

impl View for TreeWalk {
    type V = WalkState;

    closed spec fn view(&self) -> WalkState {
        WalkState {
            root: self.root@,
            max_depth: self.max_depth as nat,
            levels: level_views(self.levels@),
        }
    }
}

impl TreeWalk {
    #[verifier::type_invariant]
    spec fn rests(&self) -> bool {
        self@.at_rest()
    }

    /// A walk that is to list the folder at `root`, with levels down to
    /// `max_depth` shown. It wants `root` read.
    pub fn start(root: &str, max_depth: u32) -> (walk: TreeWalk)
        ensures
            walk@ == (WalkState {
                root: root@,
                max_depth: max_depth as nat,
                levels: Seq::<LevelState>::empty(),
            }),
            walk@.at_rest(),
    {
        let walk = TreeWalk { root: root.to_owned(), max_depth, levels: Vec::new() };
        assert(level_views(walk.levels@) == Seq::<LevelState>::empty());
        walk
    }

    /// The path of the folder that is to be read next, and none when the
    /// walk is over.
    pub fn wanted(&self) -> (path: Option<String>)
        ensures
            self@.at_rest(),
            match path {
                Some(path) => self@.wanted() == Some(path@),
                None => self@.wanted() is None,
            },
    {
        proof {
            use_type_invariant(self);
        }
        let depth = self.levels.len();
        if depth == 0 {
            Some(self.root.clone())
        } else {
            let inner = &self.levels[depth - 1];
            assert(self@.levels.last() == inner@);
            if inner.items.len() < inner.entries.len() {
                Some(inner.entries[inner.items.len()].path.clone())
            } else {
                None
            }
        }
    }

    /// Hands the walk what reading the wanted folder gave. A folder that
    /// could not be read is handed in as empty. A walk that is over takes
    /// nothing.
    pub fn supply(&mut self, entries: Vec<RawEntry>)
        ensures
            final(self)@ == old(self)@.supplied(entries@),
            final(self)@.at_rest(),
    {
        proof {
            use_type_invariant(&*self);
        }
        let depth = self.levels.len();
        if depth > 0 {
            let inner = &self.levels[depth - 1];
            assert(self@.levels.last() == inner@);
            if inner.items.len() >= inner.entries.len() {
                return ;
            }
        }
        let ghost before = self@;
        let mut levels: Vec<Level> = Vec::new();
        assert(level_views(levels@) == Seq::<LevelState>::empty());
        core::mem::swap(&mut self.levels, &mut levels);
        let fresh = Level { entries, items: Vec::new() };
        assert(fresh@ == (LevelState { entries: entries@, items: Seq::<Found>::empty() })) by {
            assert(found_all(fresh.items@) == Seq::<Found>::empty());
        }
        levels.push(fresh);
        assert(level_views(levels@) == before.levels.push(fresh@));
        settle_levels(&mut levels, self.max_depth);
        proof {
            let settled = level_views(levels@);
            assert forall|d: int| 0 <= d < settled.len() implies {
                let level = #[trigger] settled[d];
                ||| level.waits(d as nat, self.max_depth as nat)
                ||| (settled.len() == 1 && level.items.len() == level.entries.len())
            } by {
                let resting = WalkState {
                    root: Seq::empty(),
                    max_depth: self.max_depth as nat,
                    levels: settled,
                };
                assert(resting.at_rest());
                assert(resting.levels[d] == settled[d]);
            }
        }
        self.levels = levels;
    }

    /// The tree, once the walk is over, and nothing before.
    pub fn finish(&self) -> (tree: Option<Vec<FileEntry>>)
        ensures
            match tree {
                Some(entries) => {
                    &&& self@.wanted() is None
                    &&& self@.levels.len() == 1
                    &&& views(entries@) == listing(self@.levels[0].items, 0, self@.max_depth)
                },
                None => self@.wanted() is Some,
            },
    {
        proof {
            use_type_invariant(self);
        }
        if self.levels.len() == 1 {
            let top = &self.levels[0];
            assert(self@.levels.last() == top@);
            if top.items.len() >= top.entries.len() {
                return Some(build_file_tree(&top.items, 0, self.max_depth));
            }
        } else if self.levels.len() > 1 {
            assert(self@.levels.last() == self.levels[self.levels.len() - 1]@);
        }
        None
    }
}

/// The levels that wait: all but the innermost wait for an entry that is
/// to be read.
spec fn outer_wait(levels: Seq<LevelState>, max_depth: nat) -> bool {
    forall|d: int| 0 <= d < levels.len() - 1 ==> (#[trigger] levels[d]).waits(d as nat, max_depth)
}

/// The levels stand where a walk can be left.
spec fn rest(levels: Seq<LevelState>, max_depth: nat) -> bool {
    (WalkState { root: Seq::empty(), max_depth, levels }).at_rest()
}

fn settle_levels(levels: &mut Vec<Level>, max_depth: u32)
    requires
        old(levels).len() >= 1,
        outer_wait(level_views(old(levels)@), max_depth as nat),
        level_views(old(levels)@).last().items.len() <= level_views(
            old(levels)@,
        ).last().entries.len(),
    ensures
        level_views(final(levels)@) == settle(level_views(old(levels)@), max_depth as nat),
        rest(level_views(final(levels)@), max_depth as nat),
{
    let ghost target = settle(level_views(levels@), max_depth as nat);
    loop
        invariant
            levels.len() >= 1,
            outer_wait(level_views(levels@), max_depth as nat),
            level_views(levels@).last().items.len() <= level_views(levels@).last().entries.len(),
            settle(level_views(levels@), max_depth as nat) == target,
        ensures
            level_views(levels@) == target,
            rest(level_views(levels@), max_depth as nat),
        decreases
                levels.len(),
                level_views(levels@).last().entries.len() - level_views(levels@).last().items.len(),
    {
        let ghost now = level_views(levels@);
        let count = levels.len();
        assert(count - 1 <= max_depth) by {
            if count >= 2 {
                assert(now[count - 2].waits((count - 2) as nat, max_depth as nat));
            }
        }
        let mut inner = levels.pop().unwrap();
        assert(inner@ == now.last());
        assert(level_views(levels@) == now.drop_last());
        if inner.items.len() < inner.entries.len() {
            let entry = &inner.entries[inner.items.len()];
            if reads_into(entry.name.as_str(), entry.is_dir, (count - 1) as u32, max_depth) {
                levels.push(inner);
                assert(level_views(levels@) == now);
                break ;
            }
            let item = DirItem {
                name: entry.name.clone(),
                path: entry.path.clone(),
                is_dir: entry.is_dir,
                contents: Vec::new(),
            };
            proof {
                lemma_contents_found(item);
                assert(found_all(item.contents@) == Seq::<Found>::empty());
                assert(item@ == entry.holding(Seq::<Found>::empty()));
            }
            let ghost done = inner@.with_next_done(Seq::<Found>::empty());
            inner.items.push(item);
            assert(inner@ == done) by {
                assert(inner@.items == done.items);
            }
            levels.push(inner);
            assert(level_views(levels@) == now.drop_last().push(done));
        } else if count == 1 {
            levels.push(inner);
            assert(level_views(levels@) == now);
            break ;
        } else {
            let mut outer = levels.pop().unwrap();
            assert(outer@ == now[count - 2]);
            assert(level_views(levels@) == now.drop_last().drop_last());
            let folder = &outer.entries[outer.items.len()];
            let ghost below = inner@.items;
            let item = DirItem {
                name: folder.name.clone(),
                path: folder.path.clone(),
                is_dir: folder.is_dir,
                contents: inner.items,
            };
            proof {
                lemma_contents_found(item);
                assert(item@ == folder.holding(below));
            }
            let ghost done = outer@.with_next_done(below);
            outer.items.push(item);
            assert(outer@ == done) by {
                assert(outer@.items == done.items);
            }
            levels.push(outer);
            assert(level_views(levels@) == now.drop_last().drop_last().push(done));
        }
    }
}

/// A walk only ever wants a folder read that the tree shows what it holds
/// of: the folder that is listed, or a folder that is not left out and
/// that stands above the last level.
pub proof fn law_only_shown_folders_are_read(walk: WalkState)
    requires
        walk.at_rest(),
        walk.wanted() is Some,
        walk.levels.len() > 0,
    ensures
        walk.levels.len() <= walk.max_depth,
        walk.wanted() == Some(walk.levels.last().next().path@),
        walk.levels.last().waits((walk.levels.len() - 1) as nat, walk.max_depth),
{
    assert(walk.levels[walk.levels.len() - 1] == walk.levels.last());
}


/// What reading the `entries` of a folder at level `depth`, and below them
/// every folder that is to be read, gives on a disk where the folder at a
/// path holds what `disk` says.
pub open spec fn read_tree(
    disk: spec_fn(Seq<char>) -> Seq<RawEntry>,
    entries: Seq<RawEntry>,
    depth: nat,
    max_depth: nat,
) -> Seq<Found>
    decreases max_depth - depth, entries.len(),
{
    if entries.len() == 0 {
        Seq::<Found>::empty()
    } else {
        let first = entries[0];
        let contents = if is_read(first.name@, first.is_dir, depth, max_depth) {
            read_tree(disk, disk(first.path@), depth + 1, max_depth)
        } else {
            Seq::<Found>::empty()
        };
        seq![first.holding(contents)] + read_tree(disk, entries.drop_first(), depth, max_depth)
    }
}

/// What the folder that is listed will hold once the folders in `levels`
/// are gone through to their ends on `disk`, where the next entry of the
/// innermost of them holds `contents`.
pub open spec fn close(
    disk: spec_fn(Seq<char>) -> Seq<RawEntry>,
    levels: Seq<LevelState>,
    contents: Seq<Found>,
    max_depth: nat,
) -> Seq<Found>
    decreases levels.len(),
{
    if levels.len() == 0 {
        contents
    } else {
        let level = levels.last();
        close(
            disk,
            levels.drop_last(),
            level.items.push(level.next().holding(contents)) + read_tree(
                disk,
                level.entries.skip(level.items.len() as int + 1),
                (levels.len() - 1) as nat,
                max_depth,
            ),
            max_depth,
        )
    }
}

impl WalkState {
    /// What the folder that is listed will be found to hold when the walk
    /// is over, if each folder that it wants read holds what `disk` says.
    pub open spec fn end_on(self, disk: spec_fn(Seq<char>) -> Seq<RawEntry>) -> Seq<Found> {
        if self.levels.len() == 0 {
            read_tree(disk, disk(self.root), 0, self.max_depth)
        } else {
            let inner = self.levels.last();
            close(
                disk,
                self.levels.drop_last(),
                inner.items + read_tree(
                    disk,
                    inner.entries.skip(inner.items.len() as int),
                    (self.levels.len() - 1) as nat,
                    self.max_depth,
                ),
                self.max_depth,
            )
        }
    }
}

proof fn lemma_settle_keeps_the_end(
    disk: spec_fn(Seq<char>) -> Seq<RawEntry>,
    levels: Seq<LevelState>,
    max_depth: nat,
)
    requires
        levels.len() >= 1,
        levels.last().items.len() <= levels.last().entries.len(),
        outer_wait(levels, max_depth),
    ensures
        settle(levels, max_depth).len() >= 1,
        (WalkState { root: Seq::empty(), max_depth, levels: settle(levels, max_depth) }).end_on(
            disk,
        ) == (WalkState { root: Seq::empty(), max_depth, levels }).end_on(disk),
    decreases levels.len(), levels.last().entries.len() - levels.last().items.len(),
{
    let inner = levels.last();
    let depth = (levels.len() - 1) as nat;
    let left = inner.entries.skip(inner.items.len() as int);
    if inner.has_next() {
        if !inner.waits(depth, max_depth) {
            let done = inner.with_next_done(Seq::<Found>::empty());
            let next = levels.drop_last().push(done);
            assert(next.drop_last() == levels.drop_last());
            assert(next.last() == done);
            assert forall|d: int| 0 <= d < next.len() - 1 implies (#[trigger] next[d]).waits(
                d as nat,
                max_depth,
            ) by {
                assert(next[d] == levels[d]);
            }
            lemma_settle_keeps_the_end(disk, next, max_depth);
            assert(left[0] == inner.next());
            assert(left.drop_first() == inner.entries.skip(inner.items.len() as int + 1));
            assert(done.entries.skip(done.items.len() as int) == inner.entries.skip(
                inner.items.len() as int + 1,
            ));
            assert(done.items + read_tree(disk, left.drop_first(), depth, max_depth)
                == inner.items + read_tree(disk, left, depth, max_depth));
        }
    } else if levels.len() > 1 {
        let outer = levels[levels.len() - 2];
        assert(outer.waits((levels.len() - 2) as nat, max_depth));
        let done = outer.with_next_done(inner.items);
        let next = levels.drop_last().drop_last().push(done);
        assert(next.drop_last() == levels.drop_last().drop_last());
        assert(next.last() == done);
        assert forall|d: int| 0 <= d < next.len() - 1 implies (#[trigger] next[d]).waits(
            d as nat,
            max_depth,
        ) by {
            assert(next[d] == levels[d]);
        }
        lemma_settle_keeps_the_end(disk, next, max_depth);
        assert(left == Seq::<RawEntry>::empty());
        assert(inner.items + read_tree(disk, left, depth, max_depth) == inner.items);
        assert(levels.drop_last().last() == outer);
        assert(levels.drop_last().drop_last() == next.drop_last());
        assert(done.entries.skip(done.items.len() as int) == outer.entries.skip(
            outer.items.len() as int + 1,
        ));
    }
}

/// Handing a walk what the disk holds of the folder that it wants read
/// leaves its end where it was. So a walk that is handed, for each folder
/// that it wants read, what the disk holds of it, ends with what reading
/// the folder that is listed, and the folders below it, gives on that disk.
pub proof fn law_walk_keeps_its_end(walk: WalkState, disk: spec_fn(Seq<char>) -> Seq<RawEntry>)
    requires
        walk.at_rest(),
        walk.wanted() is Some,
    ensures
        walk.supplied(disk(walk.wanted()->0)).end_on(disk) == walk.end_on(disk),
{
    let entries = disk(walk.wanted()->0);
    let fresh = LevelState { entries, items: Seq::<Found>::empty() };
    let grown = walk.levels.push(fresh);
    assert(grown.drop_last() == walk.levels);
    assert(grown.last() == fresh);
    assert forall|d: int| 0 <= d < grown.len() - 1 implies (#[trigger] grown[d]).waits(
        d as nat,
        walk.max_depth,
    ) by {
        assert(grown[d] == walk.levels[d]);
        if walk.levels.len() == 1 {
            assert(walk.levels[0] == walk.levels.last());
        }
    }
    lemma_settle_keeps_the_end(disk, grown, walk.max_depth);
    let count = walk.levels.len();
    let below = read_tree(disk, entries, count, walk.max_depth);
    let settled = WalkState {
        root: Seq::empty(),
        max_depth: walk.max_depth,
        levels: settle(grown, walk.max_depth),
    };
    let pushed = WalkState { root: Seq::empty(), max_depth: walk.max_depth, levels: grown };
    assert(walk.supplied(entries).end_on(disk) == settled.end_on(disk));
    assert(fresh.entries.skip(0) == entries);
    assert(fresh.items + below == below);
    assert(pushed.end_on(disk) == close(disk, walk.levels, below, walk.max_depth));
    if count > 0 {
        let inner = walk.levels.last();
        let depth = (count - 1) as nat;
        let left = inner.entries.skip(inner.items.len() as int);
        assert(walk.levels[count - 1] == inner);
        assert(inner.waits(depth, walk.max_depth));
        assert(left[0] == inner.next());
        assert(left.drop_first() == inner.entries.skip(inner.items.len() as int + 1));
        let after = read_tree(disk, left.drop_first(), depth, walk.max_depth);
        assert(read_tree(disk, left, depth, walk.max_depth) == seq![inner.next().holding(below)]
            + after);
        assert(inner.items + (seq![inner.next().holding(below)] + after) == inner.items.push(
            inner.next().holding(below),
        ) + after);
        assert(close(disk, walk.levels, below, walk.max_depth) == close(
            disk,
            walk.levels.drop_last(),
            inner.items.push(inner.next().holding(below)) + after,
            walk.max_depth,
        ));
    }
}

/// A walk that is over holds, of the folder that is listed, what its end
/// was to be.
pub proof fn law_walk_ends_at_its_end(walk: WalkState, disk: spec_fn(Seq<char>) -> Seq<RawEntry>)
    requires
        walk.at_rest(),
        walk.wanted() is None,
    ensures
        walk.levels.len() == 1,
        walk.levels[0].items == walk.end_on(disk),
{
    let inner = walk.levels.last();
    assert(walk.levels[walk.levels.len() - 1] == inner);
    assert(inner.entries.skip(inner.items.len() as int) == Seq::<RawEntry>::empty());
    assert(inner.items + Seq::<Found>::empty() == inner.items);
}

} // verus!
