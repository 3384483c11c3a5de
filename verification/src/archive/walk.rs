//! The walk through a package root.

use vstd::prelude::*;

use crate::bytes::{byte_lists, copy};
use crate::paths::{join_path, joined_path};

verus! {

/// An entry of a directory.
#[derive(Clone, Debug, PartialEq, Eq)]
pub struct DirectoryEntry {
    pub name: Vec<u8>,
    /// The entry is a directory itself, and no link to one.
    pub is_directory: bool,
}

/// The mathematical value of a [`DirectoryEntry`].
pub struct EntryModel {
    pub name: Seq<u8>,
    pub is_directory: bool,
}

impl DeepView for DirectoryEntry {
    type V = EntryModel;

    open spec fn deep_view(&self) -> EntryModel {
        EntryModel { name: self.name@, is_directory: self.is_directory }
    }
}

/// A walk through a package root.  All paths are relative to the root.
pub struct FileWalk {
    /// The directories that are still to be listed, the next one last.
    pending: Vec<Vec<u8>>,
    /// The paths that were found.
    found: Vec<Vec<u8>>,
}

/// The mathematical value of a [`FileWalk`].
pub struct WalkModel {
    pub pending: Seq<Seq<u8>>,
    pub found: Seq<Seq<u8>>,
}

impl View for FileWalk {
    type V = WalkModel;

    closed spec fn view(&self) -> WalkModel {
        WalkModel { pending: byte_lists(self.pending@), found: byte_lists(self.found@) }
    }
}

/// The walk before the root was listed.
pub open spec fn new_walk() -> WalkModel {
    WalkModel { pending: seq![seq![]], found: seq![] }
}

/// The walk after one more entry of a directory.  The entry is found, and it
/// is listed later if it is a directory.  A link to a directory is not.
pub open spec fn after_entry(walk: WalkModel, directory: Seq<u8>, entry: EntryModel) -> WalkModel {
    let path = joined_path(directory, entry.name);
    WalkModel {
        pending: if entry.is_directory {
            walk.pending.push(path)
        } else {
            walk.pending
        },
        found: walk.found.push(path),
    }
}

/// The walk after the entries of a directory.
pub open spec fn after_entries(walk: WalkModel, directory: Seq<u8>, entries: Seq<EntryModel>) -> WalkModel
    decreases entries.len(),
{
    if entries.len() == 0 {
        walk
    } else {
        after_entry(
            after_entries(walk, directory, entries.drop_last()),
            directory,
            entries.last(),
        )
    }
}

/// The walk after the next directory was listed.
pub open spec fn after_listing(walk: WalkModel, entries: Seq<EntryModel>) -> WalkModel {
    after_entries(
        WalkModel { pending: walk.pending.drop_last(), ..walk },
        walk.pending.last(),
        entries,
    )
}

impl FileWalk {
    /// Start at the root.
    pub fn new() -> (result: Self)
        ensures
            result@ == new_walk(),
    {
        let mut pending: Vec<Vec<u8>> = Vec::new();
        pending.push(Vec::new());
        let result = FileWalk { pending, found: Vec::new() };
        assert(result@.pending =~= new_walk().pending);
        assert(result@.found =~= new_walk().found);
        result
    }

    /// The directory that is to be listed next.
    pub fn next_directory(&self) -> (result: Option<&[u8]>)
        ensures
            match result {
                Some(directory) => self@.pending.len() > 0 && directory@ == self@.pending.last(),
                None => self@.pending.len() == 0,
            },
    {
        assert(self@.pending.len() == self.pending@.len());
        if self.pending.len() == 0 {
            None
        } else {
            let last = self.pending.len() - 1;
            assert(self@.pending.last() == self.pending@[last as int]@);
            Some(self.pending[last].as_slice())
        }
    }

    /// Go on with the entries of the next directory.
    pub fn add_entries(self, entries: &Vec<DirectoryEntry>) -> (result: Self)
        requires
            self@.pending.len() > 0,
        ensures
            result@ == after_listing(self@, entries.deep_view()),
    {
        let ghost before = self@;
        let FileWalk { mut pending, mut found } = self;
        assert(before.pending.len() == pending@.len());
        let ghost listed = before.pending.last();
        let directory = match pending.pop() {
            Some(directory) => directory,
            None => Vec::new(),
        };
        assert(directory@ == listed);
        let ghost start = WalkModel {
            pending: byte_lists(pending@),
            found: byte_lists(found@),
        };
        proof {
            assert(start.pending =~= before.pending.drop_last());
            assert(entries.deep_view().take(0) =~= seq![]);
        }
        for index in 0..entries.len()
            invariant
                directory@ == listed,
                after_entries(start, listed, entries.deep_view().take(index as int)) == (WalkModel {
                    pending: byte_lists(pending@),
                    found: byte_lists(found@),
                }),
        {
            let ghost waiting = byte_lists(pending@);
            let ghost known = byte_lists(found@);
            let path = join_path(directory.as_slice(), entries[index].name.as_slice());
            let ghost value = path@;
            proof {
                let all = entries.deep_view();
                assert(all.take(index + 1).drop_last() == all.take(index as int));
                assert(all.take(index + 1).last() == entries@[index as int].deep_view());
            }
            if entries[index].is_directory {
                pending.push(copy(path.as_slice()));
                assert(byte_lists(pending@) =~= waiting.push(value));
            }
            found.push(path);
            assert(byte_lists(found@) =~= known.push(value));
        }
        assert(entries.deep_view().take(entries@.len() as int) =~= entries.deep_view());
        FileWalk { pending, found }
    }

    /// The paths that were found, relative to the root.
    pub fn finish(self) -> (result: Vec<Vec<u8>>)
        ensures
            byte_lists(result@) == self@.found,
    {
        self.found
    }
}

// ---------------------------------------------------------------------------
// Laws
// ---------------------------------------------------------------------------
/// A directory is listed later only if the walk waited for it before, or if it
/// is an entry that is a directory itself.  Links are never entered.
pub proof fn links_are_not_entered(
    walk: WalkModel,
    directory: Seq<u8>,
    entries: Seq<EntryModel>,
    path: Seq<u8>,
)
    requires
        after_entries(walk, directory, entries).pending.contains(path),
    ensures
        walk.pending.contains(path) || exists|at: int|
            0 <= at < entries.len() && (#[trigger] entries[at]).is_directory && path
                == joined_path(directory, entries[at].name),
    decreases entries.len(),
{
    if entries.len() > 0 {
        let rest = entries.drop_last();
        let before = after_entries(walk, directory, rest);
        let last = joined_path(directory, entries.last().name);
        let after = after_entries(walk, directory, entries);
        if before.pending.contains(path) {
            links_are_not_entered(walk, directory, rest, path);
            if !walk.pending.contains(path) {
                let at = choose|at: int|
                    0 <= at < rest.len() && (#[trigger] rest[at]).is_directory && path
                        == joined_path(directory, rest[at].name);
                assert(entries[at] == rest[at]);
            }
        } else {
            let at = choose|at: int| 0 <= at < after.pending.len() && after.pending[at] == path;
            assert(at < before.pending.len() ==> before.pending[at] == path);
            assert(entries[entries.len() - 1].is_directory);
            assert(path == last);
        }
    }
}

/// Every entry is found, and everything that was found before stays.
pub proof fn every_entry_is_found(walk: WalkModel, directory: Seq<u8>, entries: Seq<EntryModel>)
    ensures
        after_entries(walk, directory, entries).found == walk.found + entries.map_values(
            |entry: EntryModel| joined_path(directory, entry.name),
        ),
    decreases entries.len(),
{
    let paths = entries.map_values(|entry: EntryModel| joined_path(directory, entry.name));
    if entries.len() == 0 {
        assert(walk.found + paths =~= walk.found);
    } else {
        let rest = entries.drop_last();
        every_entry_is_found(walk, directory, rest);
        assert(paths =~= rest.map_values(
            |entry: EntryModel| joined_path(directory, entry.name),
        ).push(joined_path(directory, entries.last().name)));
        assert(after_entries(walk, directory, entries).found =~= walk.found + paths);
    }
}

proof fn lemma_pending_stays(walk: WalkModel, directory: Seq<u8>, entries: Seq<EntryModel>)
    ensures
        after_entries(walk, directory, entries).pending.len() >= walk.pending.len(),
        forall|index: int|
            0 <= index < walk.pending.len() ==> after_entries(
                walk,
                directory,
                entries,
            ).pending[index] == walk.pending[index],
    decreases entries.len(),
{
    if entries.len() > 0 {
        lemma_pending_stays(walk, directory, entries.drop_last());
    }
}

/// A listing takes one directory off the walk: the others are still to be listed,
/// and the entries are found in the directory that was listed.
pub proof fn other_directories_stay_pending(walk: WalkModel, entries: Seq<EntryModel>)
    requires
        walk.pending.len() > 0,
    ensures
        ({
            let after = after_listing(walk, entries);
            let directory = walk.pending.last();
            &&& after.pending.len() >= walk.pending.len() - 1
            &&& forall|index: int|
                0 <= index < walk.pending.len() - 1 ==> after.pending[index] == walk.pending[index]
            &&& after.found == walk.found + entries.map_values(
                |entry: EntryModel| joined_path(directory, entry.name),
            )
        }),
{
    let directory = walk.pending.last();
    let rest = WalkModel { pending: walk.pending.drop_last(), ..walk };
    let after = after_listing(walk, entries);
    lemma_pending_stays(rest, directory, entries);
    every_entry_is_found(rest, directory, entries);
    assert(after == after_entries(rest, directory, entries));
    assert forall|index: int| 0 <= index < walk.pending.len() - 1 implies after.pending[index]
        == walk.pending[index] by {
        assert(rest.pending[index] == walk.pending[index]);
    }
}

} // verus!
