//! The installed size of a package.

use std::collections::HashSet;

use vstd::prelude::*;
use vstd::utf8::encode_utf8;

use crate::bytes::same;
use crate::error::{failure, Outcome, Result};

verus! {

/// An entry below the package root.
#[derive(Clone, Debug, PartialEq, Eq)]
pub struct SizedEntry {
    /// The path relative to the package root.
    pub path: Vec<u8>,
    pub is_file: bool,
    pub device: u64,
    pub inode: u64,
    /// The number of hard links to the file.
    pub links: u64,
    pub length: u64,
}

/// The path belongs to the metadata of the package.
pub open spec fn is_metadata_path(path: Seq<u8>) -> bool {
    ||| path == encode_utf8(".PKGINFO"@)
    ||| path == encode_utf8(".BUILDINFO"@)
    ||| path == encode_utf8(".MTREE"@)
    ||| path == encode_utf8(".INSTALL"@)
}

/// Test whether a path belongs to the metadata of the package.
pub fn is_package_metadata(path: &[u8]) -> (result: bool)
    ensures
        result == is_metadata_path(path@),
{
    same(path, ".PKGINFO".as_bytes()) || same(path, ".BUILDINFO".as_bytes()) || same(
        path,
        ".MTREE".as_bytes(),
    ) || same(path, ".INSTALL".as_bytes())
}

/// The entry is a regular file of the payload.
pub open spec fn is_payload_file(entry: SizedEntry) -> bool {
    entry.is_file && !is_metadata_path(entry.path@)
}

/// Two entries are hard links to one file.
pub open spec fn same_file(one: SizedEntry, two: SizedEntry) -> bool {
    one.device == two.device && one.inode == two.inode
}

/// An earlier entry is a hard link to the same file.
pub open spec fn was_counted(entries: Seq<SizedEntry>, index: int) -> bool {
    exists|earlier: int|
        0 <= earlier < index && is_payload_file(#[trigger] entries[earlier])
            && entries[earlier].links > 1 && same_file(entries[earlier], entries[index])
}

/// The size that an entry adds: a file with several hard links adds its size
/// once.
pub open spec fn added_size(entries: Seq<SizedEntry>, index: int) -> nat {
    let entry = entries[index];
    if is_payload_file(entry) && (entry.links <= 1 || !was_counted(entries, index)) {
        entry.length as nat
    } else {
        0
    }
}

/// The size of the first entries.
pub open spec fn size_of_first(entries: Seq<SizedEntry>, count: int) -> nat
    decreases count,
{
    if count <= 0 {
        0
    } else {
        size_of_first(entries, count - 1) + added_size(entries, count - 1)
    }
}

/// The installed size of a package.
pub open spec fn installed_size_of_entries(entries: Seq<SizedEntry>) -> Outcome<u64> {
    let size = size_of_first(entries, entries.len() as int);
    if size > u64::MAX {
        Err("The installed-size value is larger than u64 can store."@)
    } else {
        Ok(size as u64)
    }
}

proof fn lemma_size_grows(entries: Seq<SizedEntry>, fewer: int, more: int)
    requires
        0 <= fewer <= more,
    ensures
        size_of_first(entries, fewer) <= size_of_first(entries, more),
    decreases more - fewer,
{
    if fewer < more {
        lemma_size_grows(entries, fewer, more - 1);
    }
}

/// Add up the installed size of a package.
pub fn calculate_installed_size(entries: &Vec<SizedEntry>) -> (result: Result<u64>)
    ensures
        match result {
            Ok(size) => installed_size_of_entries(entries@) == Ok::<u64, Seq<char>>(size),
            Err(error) => installed_size_of_entries(entries@) == Err::<u64, Seq<char>>(error@),
        },
{
    let mut seen: IdentitySet = IdentitySet::new();
    let mut size: u64 = 0;
    for index in 0..entries.len()
        invariant
            size == size_of_first(entries@, index as int),
            forall|device: u64, inode: u64| #[trigger]
                seen@.contains((device, inode)) <==> exists|earlier: int|
                    0 <= earlier < index && is_payload_file(#[trigger] entries@[earlier])
                        && entries@[earlier].links > 1 && entries@[earlier].device == device
                        && entries@[earlier].inode == inode,
    {
        let entry = &entries[index];
        let ghost before = seen@;
        let mut counts = false;
        if entry.is_file && !is_package_metadata(entry.path.as_slice()) {
            if entry.links <= 1 {
                counts = true;
            } else {
                counts = seen.insert(entry.device, entry.inode);
            }
        }
        proof {
            let current = entries@[index as int];
            assert(before.contains((current.device, current.inode)) <==> was_counted(
                entries@,
                index as int,
            ));
            assert(added_size(entries@, index as int) == if counts {
                current.length as nat
            } else {
                0
            });
            assert(size_of_first(entries@, index + 1) == size_of_first(entries@, index as int)
                + added_size(entries@, index as int));
            lemma_size_grows(entries@, index + 1, entries@.len() as int);
            assert forall|device: u64, inode: u64| #[trigger]
                seen@.contains((device, inode)) <==> exists|earlier: int|
                    0 <= earlier < index + 1 && is_payload_file(#[trigger] entries@[earlier])
                        && entries@[earlier].links > 1 && entries@[earlier].device == device
                        && entries@[earlier].inode == inode by {
                if seen@.contains((device, inode)) {
                    if before.contains((device, inode)) {
                        let earlier = choose|earlier: int|
                            0 <= earlier < index && is_payload_file(#[trigger] entries@[earlier])
                                && entries@[earlier].links > 1 && entries@[earlier].device
                                == device && entries@[earlier].inode == inode;
                        assert(is_payload_file(entries@[earlier]));
                    } else {
                        assert(is_payload_file(entries@[index as int]));
                    }
                }
                if exists|earlier: int|
                    0 <= earlier < index + 1 && is_payload_file(#[trigger] entries@[earlier])
                        && entries@[earlier].links > 1 && entries@[earlier].device == device
                        && entries@[earlier].inode == inode {
                    let earlier = choose|earlier: int|
                        0 <= earlier < index + 1 && is_payload_file(#[trigger] entries@[earlier])
                            && entries@[earlier].links > 1 && entries@[earlier].device == device
                            && entries@[earlier].inode == inode;
                    if earlier < index {
                        assert(before.contains((device, inode)));
                    }
                }
            }
        }
        if counts {
            match size.checked_add(entry.length) {
                Some(more) => size = more,
                None => return Err(
                    failure("The installed-size value is larger than u64 can store."),
                ),
            }
        }
    }
    Ok(size)
}

/// A further hard link to a file of the package adds nothing to its size.
pub proof fn hard_links_count_once(entries: Seq<SizedEntry>, first: int, second: int)
    requires
        0 <= first < second < entries.len(),
        is_payload_file(entries[first]),
        entries[first].links > 1,
        entries[second].links > 1,
        same_file(entries[first], entries[second]),
    ensures
        added_size(entries, second) == 0,
{
    assert(is_payload_file(entries[first]));
}

// ---------------------------------------------------------------------------
// Identities
// ---------------------------------------------------------------------------
/// The devices and inode numbers that were seen.
struct IdentitySet {
    members: HashSet<u128>,
}

/// A device and an inode number as one number.
spec fn identity_key(identity: (u64, u64)) -> u128 {
    (identity.0 * 0x1_0000_0000_0000_0000 + identity.1) as u128
}

impl View for IdentitySet {
    type V = Set<(u64, u64)>;

    closed spec fn view(&self) -> Set<(u64, u64)> {
        Set::new(|identity: (u64, u64)| self.members@.contains(identity_key(identity)))
    }
}

impl IdentitySet {
    fn new() -> (result: Self)
        ensures
            result@ == Set::<(u64, u64)>::empty(),
    {
        let result = IdentitySet { members: HashSet::new() };
        assert(result@ =~= Set::<(u64, u64)>::empty());
        result
    }

    /// Add an identity and tell whether it is new.
    fn insert(&mut self, device: u64, inode: u64) -> (result: bool)
        ensures
            final(self)@ == old(self)@.insert((device, inode)),
            result == !old(self)@.contains((device, inode)),
    {
        broadcast use vstd::std_specs::hash::group_hash_axioms;

        let ghost before = self@;
        let key: u128 = device as u128 * 0x1_0000_0000_0000_0000 + inode as u128;
        let result = self.members.insert(key);
        proof {
            assert forall|other: (u64, u64)| #[trigger]
                self@.contains(other) == before.insert((device, inode)).contains(other) by {
                if identity_key(other) == key {
                    assert(other == (device, inode));
                }
            }
            assert(self@ =~= before.insert((device, inode)));
        }
        result
    }
}

} // verus!
