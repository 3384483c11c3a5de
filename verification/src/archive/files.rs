//! The file lists of a package root.

use vstd::prelude::*;
use vstd::utf8::encode_utf8;

use crate::bytes::{byte_lists, byte_sorted, contains_byte, copy, extend, sort, split_bytes};
use crate::error::{failure, outcome, Outcome, Result};
use crate::number::{signed_decimal, signed_text};
use crate::paths::{join_path, joined_path, path_components, same_path, split_undoes_join};

verus! {

// ---------------------------------------------------------------------------
// Lists
// ---------------------------------------------------------------------------
/// The paths of a package root in the form that package metadata uses.
pub open spec fn dotted_paths(relative: Seq<Seq<u8>>) -> Seq<Seq<u8>> {
    relative.map_values(|path: Seq<u8>| joined_path(encode_utf8("."@), path))
}

/// The sorted list of the paths of a package root.
pub open spec fn sorted_file_list(relative: Seq<Seq<u8>>) -> Seq<Seq<u8>> {
    byte_sorted(dotted_paths(relative))
}

/// Return a byte-sorted list of all package paths.
///
/// The paths are given relative to the package root. In the list they have the
/// `./` prefix used by Arch package metadata.
pub fn collect_sorted_file_list(relative: &Vec<Vec<u8>>) -> (result: Vec<Vec<u8>>)
    ensures
        byte_lists(result@) == sorted_file_list(byte_lists(relative@)),
{
    let mut dotted: Vec<Vec<u8>> = Vec::new();
    for index in 0..relative.len()
        invariant
            dotted@.len() == index,
            forall|at: int|
                0 <= at < index ==> (#[trigger] dotted@[at])@ == joined_path(
                    encode_utf8("."@),
                    relative@[at]@,
                ),
    {
        dotted.push(join_path(".".as_bytes(), relative[index].as_slice()));
    }
    assert(byte_lists(dotted@) =~= dotted_paths(byte_lists(relative@)));
    sort(dotted)
}

/// No path holds a NUL byte.
pub open spec fn free_of_nul(paths: Seq<Seq<u8>>) -> bool {
    forall|index: int| 0 <= index < paths.len() ==> !(#[trigger] paths[index]).contains(0)
}

/// Paths with a NUL byte behind each of them.
pub open spec fn nul_bytes(paths: Seq<Seq<u8>>) -> Seq<u8>
    decreases paths.len(),
{
    if paths.len() == 0 {
        seq![]
    } else {
        nul_bytes(paths.drop_last()) + paths.last().push(0)
    }
}

/// Paths as one NUL-delimited list.
pub open spec fn nul_list(paths: Seq<Seq<u8>>) -> Outcome<Seq<u8>> {
    if free_of_nul(paths) {
        Ok(nul_bytes(paths))
    } else {
        Err("a package path contains a NUL byte"@)
    }
}

/// The number of NUL bytes.
pub open spec fn nul_count(bytes: Seq<u8>) -> nat
    decreases bytes.len(),
{
    if bytes.len() == 0 {
        0
    } else {
        nul_count(bytes.drop_last()) + if bytes.last() == 0 {
            1nat
        } else {
            0
        }
    }
}

proof fn lemma_nul_count_adds(left: Seq<u8>, right: Seq<u8>)
    ensures
        nul_count(left + right) == nul_count(left) + nul_count(right),
    decreases right.len(),
{
    if right.len() == 0 {
        assert(left + right =~= left);
    } else {
        lemma_nul_count_adds(left, right.drop_last());
        assert((left + right).drop_last() =~= left + right.drop_last());
        assert((left + right).last() == right.last());
    }
}

proof fn lemma_no_nul(bytes: Seq<u8>)
    requires
        !bytes.contains(0),
    ensures
        nul_count(bytes) == 0,
    decreases bytes.len(),
{
    if bytes.len() > 0 {
        assert(bytes[bytes.len() - 1] != 0);
        assert forall|at: int| 0 <= at < bytes.len() - 1 implies bytes.drop_last()[at] != 0 by {
            assert(bytes[at] != 0);
        }
        lemma_no_nul(bytes.drop_last());
    }
}

/// A NUL-delimited list holds as many NUL bytes as it holds paths.
pub proof fn lists_hold_a_nul_for_each_path(paths: Seq<Seq<u8>>)
    requires
        free_of_nul(paths),
    ensures
        nul_count(nul_bytes(paths)) == paths.len(),
    decreases paths.len(),
{
    if paths.len() > 0 {
        let last = paths[paths.len() - 1];
        assert forall|at: int| 0 <= at < paths.len() - 1 implies !(
        #[trigger] paths.drop_last()[at]).contains(0) by {
            assert(!paths[at].contains(0));
        }
        lists_hold_a_nul_for_each_path(paths.drop_last());
        lemma_no_nul(last);
        assert(last.push(0).drop_last() =~= last);
        lemma_nul_count_adds(nul_bytes(paths.drop_last()), last.push(0));
    }
}

/// Write paths as one NUL-delimited list.
pub fn paths_to_nul_bytes(paths: &Vec<Vec<u8>>) -> (result: Result<Vec<u8>>)
    ensures
        match result {
            Ok(list) => nul_list(byte_lists(paths@)) == Ok::<Seq<u8>, Seq<char>>(list@),
            Err(error) => nul_list(byte_lists(paths@)) == Err::<Seq<u8>, Seq<char>>(error@),
        },
{
    let ghost all = byte_lists(paths@);
    let mut output: Vec<u8> = Vec::new();
    assert(output@ =~= seq![]);
    for index in 0..paths.len()
        invariant
            all == byte_lists(paths@),
            output@ == nul_bytes(all.take(index as int)),
            forall|at: int| 0 <= at < index ==> !(#[trigger] all[at]).contains(0),
    {
        let ghost before = output@;
        proof {
            assert(all.take(index + 1).drop_last() == all.take(index as int));
            assert(all.take(index + 1).last() == paths@[index as int]@);
        }
        assert(all[index as int] == paths@[index as int]@);
        if contains_byte(paths[index].as_slice(), 0) {
            return Err(failure("a package path contains a NUL byte"));
        }
        extend(&mut output, paths[index].as_slice());
        output.push(0);
        assert(output@ =~= before + paths@[index as int]@.push(0));
    }
    assert(all.take(all.len() as int) == all);
    Ok(output)
}

/// Return the sorted package file list as NUL-delimited bytes.
pub fn sorted_nul_file_list(relative: &Vec<Vec<u8>>) -> (result: Result<Vec<u8>>)
    ensures
        match result {
            Ok(list) => nul_list(sorted_file_list(byte_lists(relative@))) == Ok::<
                Seq<u8>,
                Seq<char>,
            >(list@),
            Err(error) => nul_list(sorted_file_list(byte_lists(relative@))) == Err::<
                Seq<u8>,
                Seq<char>,
            >(error@),
        },
{
    paths_to_nul_bytes(&collect_sorted_file_list(relative))
}

/// The sorted package file list as NUL-delimited bytes, and the number of its
/// entries, which is that of the NUL bytes.
pub fn write_sorted_nul_file_list(relative: &Vec<Vec<u8>>) -> (result: Result<(Vec<u8>, usize)>)
    ensures
        match result {
            Ok((list, count)) => nul_list(sorted_file_list(byte_lists(relative@))) == Ok::<
                Seq<u8>,
                Seq<char>,
            >(list@) && count == sorted_file_list(byte_lists(relative@)).len() && count
                == nul_count(list@),
            Err(error) => nul_list(sorted_file_list(byte_lists(relative@))) == Err::<
                Seq<u8>,
                Seq<char>,
            >(error@),
        },
{
    let paths = collect_sorted_file_list(relative);
    let bytes = paths_to_nul_bytes(&paths)?;
    assert(byte_lists(paths@).len() == paths@.len());
    proof {
        lists_hold_a_nul_for_each_path(byte_lists(paths@));
    }
    Ok((bytes, paths.len()))
}

// ---------------------------------------------------------------------------
// Arguments
// ---------------------------------------------------------------------------
/// The bytes of a list of texts.
pub open spec fn encoded(arguments: Seq<Seq<char>>) -> Seq<Seq<u8>> {
    arguments.map_values(|argument: Seq<char>| encode_utf8(argument))
}

/// The options that fix the time of all entries.
pub open spec fn time_arguments(epoch: Option<i64>) -> Seq<Seq<u8>> {
    match epoch {
        Some(seconds) => encoded(seq!["--mtime"@, "@"@ + signed_decimal(seconds as int)]),
        None => seq![],
    }
}

/// Add texts to a list of arguments.
pub fn push_arguments(arguments: &mut Vec<Vec<u8>>, more: &[&str])
    ensures
        byte_lists(final(arguments)@) == byte_lists(old(arguments)@) + encoded(
            crate::lists::str_views(more@),
        ),
{
    let ghost start = byte_lists(arguments@);
    let ghost all = encoded(crate::lists::str_views(more@));
    assert(byte_lists(arguments@) =~= start + all.take(0));
    for index in 0..more.len()
        invariant
            all == encoded(crate::lists::str_views(more@)),
            byte_lists(arguments@) == start + all.take(index as int),
    {
        let ghost before = byte_lists(arguments@);
        let one = copy(more[index].as_bytes());
        arguments.push(one);
        proof {
            assert(all[index as int] == one@);
            assert(byte_lists(arguments@) =~= before.push(one@));
            assert(all.take(index + 1) =~= all.take(index as int).push(one@));
        }
    }
    assert(all.take(all.len() as int) == all);
}

/// Add the options that fix the time of all entries.
pub fn push_time(arguments: &mut Vec<Vec<u8>>, epoch: Option<i64>)
    ensures
        byte_lists(final(arguments)@) == byte_lists(old(arguments)@) + time_arguments(epoch),
{
    let ghost before = byte_lists(arguments@);
    if let Some(seconds) = epoch {
        let time = String::from_str("@").concat(signed_text(seconds).as_str());
        let ghost number = signed_decimal(seconds as int);
        arguments.push(copy("--mtime".as_bytes()));
        arguments.push(copy(time.as_str().as_bytes()));
        assert(encoded(seq!["--mtime"@, "@"@ + number]) =~= seq![
            encode_utf8("--mtime"@),
            encode_utf8("@"@ + number),
        ]);
        assert(byte_lists(arguments@) =~= before + time_arguments(epoch));
    } else {
        assert(byte_lists(arguments@) =~= before + time_arguments(epoch));
    }
}

/// The message about a negative time.
pub open spec fn epoch_fault(epoch: Option<i64>) -> Option<Seq<char>> {
    match epoch {
        Some(seconds) if seconds < 0 => Some("SOURCE_DATE_EPOCH cannot be a negative number"@),
        _ => None,
    }
}

/// Refuse a negative time.
pub fn validate_epoch(epoch: Option<i64>) -> (result: Result<()>)
    ensures
        outcome(result) == match epoch_fault(epoch) {
            Some(message) => Err::<(), Seq<char>>(message),
            None => Ok(()),
        },
{
    if let Some(seconds) = epoch {
        if seconds < 0 {
            return Err(failure("SOURCE_DATE_EPOCH cannot be a negative number"));
        }
    }
    Ok(())
}

// ---------------------------------------------------------------------------
// Index
// ---------------------------------------------------------------------------
/// How the index of a package root is made.
#[derive(Clone, Debug, PartialEq, Eq)]
pub struct MtreePlan {
    /// The NUL-delimited list of the files to index.
    pub list: Vec<u8>,
    /// The arguments of `bsdtar`.
    pub arguments: Vec<Vec<u8>>,
}

/// The mathematical value of an [`MtreePlan`].
pub struct MtreeModel {
    pub list: Seq<u8>,
    pub arguments: Seq<Seq<u8>>,
}

impl DeepView for MtreePlan {
    type V = MtreeModel;

    open spec fn deep_view(&self) -> MtreeModel {
        MtreeModel { list: self.list@, arguments: byte_lists(self.arguments@) }
    }
}

/// The path is that of the index itself.
pub open spec fn is_index(path: Seq<u8>) -> bool {
    path_components(path) == path_components(encode_utf8("./.MTREE"@))
}

/// The files that the index lists.
pub open spec fn indexed_files(relative: Seq<Seq<u8>>) -> Seq<Seq<u8>> {
    sorted_file_list(relative).filter(|path: Seq<u8>| !is_index(path))
}

/// The arguments of `bsdtar` that make the index.
pub open spec fn mtree_arguments(list_path: Seq<u8>, epoch: Option<i64>) -> Seq<Seq<u8>> {
    encoded(
        seq![
            "-cnf"@,
            "-"@,
            "--format=mtree"@,
            "--options=!all,use-set,type,uid,gid,mode,time,size,sha256,link"@,
            "--uid"@,
            "0"@,
            "--gid"@,
            "0"@,
            "--uname"@,
            "root"@,
            "--gname"@,
            "root"@,
            "--null"@,
            "--files-from"@,
        ],
    ).push(list_path) + encoded(seq!["--exclude"@, ".MTREE"@]) + time_arguments(epoch)
}

/// How the index of a package root is made.
pub open spec fn mtree_plan_of(
    relative: Seq<Seq<u8>>,
    list_path: Seq<u8>,
    epoch: Option<i64>,
) -> Outcome<MtreeModel> {
    match epoch_fault(epoch) {
        Some(message) => Err(message),
        None => match nul_list(indexed_files(relative)) {
            Err(message) => Err(message),
            Ok(list) => Ok(MtreeModel { list, arguments: mtree_arguments(list_path, epoch) }),
        },
    }
}

fn without_index(paths: Vec<Vec<u8>>) -> (result: Vec<Vec<u8>>)
    ensures
        byte_lists(result@) == byte_lists(paths@).filter(|path: Seq<u8>| !is_index(path)),
{
    let ghost all = byte_lists(paths@);
    let mut kept: Vec<Vec<u8>> = Vec::new();
    assert(byte_lists(kept@) =~= all.take(0).filter(|path: Seq<u8>| !is_index(path))) by {
        reveal(Seq::filter);
    }
    for index in 0..paths.len()
        invariant
            all == byte_lists(paths@),
            byte_lists(kept@) == all.take(index as int).filter(|path: Seq<u8>| !is_index(path)),
    {
        let ghost before = byte_lists(kept@);
        proof {
            assert(all.take(index + 1).drop_last() == all.take(index as int));
            assert(all.take(index + 1).last() == paths@[index as int]@);
            reveal(Seq::filter);
        }
        if !same_path(paths[index].as_slice(), "./.MTREE".as_bytes()) {
            kept.push(copy(paths[index].as_slice()));
            assert(byte_lists(kept@) =~= before.push(paths@[index as int]@));
        }
    }
    assert(all.take(all.len() as int) == all);
    kept
}

/// Plan the standard `.MTREE` file of a package root, with an optional fixed
/// timestamp for its entries.
pub fn generate_mtree_with_epoch(
    relative: &Vec<Vec<u8>>,
    list_path: &[u8],
    source_date_epoch: Option<i64>,
) -> (result: Result<MtreePlan>)
    ensures
        outcome(result) == mtree_plan_of(byte_lists(relative@), list_path@, source_date_epoch),
{
    validate_epoch(source_date_epoch)?;
    let paths = without_index(collect_sorted_file_list(relative));
    let list = paths_to_nul_bytes(&paths)?;
    let mut arguments: Vec<Vec<u8>> = Vec::new();
    assert(byte_lists(arguments@) =~= seq![]);
    let start: [&str; 14] = [
        "-cnf",
        "-",
        "--format=mtree",
        "--options=!all,use-set,type,uid,gid,mode,time,size,sha256,link",
        "--uid",
        "0",
        "--gid",
        "0",
        "--uname",
        "root",
        "--gname",
        "root",
        "--null",
        "--files-from",
    ];
    push_arguments(&mut arguments, vstd::array::array_as_slice(&start));
    let ghost first = byte_lists(arguments@);
    arguments.push(copy(list_path));
    assert(byte_lists(arguments@) =~= first.push(list_path@));
    let end: [&str; 2] = ["--exclude", ".MTREE"];
    push_arguments(&mut arguments, vstd::array::array_as_slice(&end));
    push_time(&mut arguments, source_date_epoch);
    proof {
        assert(crate::lists::str_views(start@) =~= seq![
            "-cnf"@,
            "-"@,
            "--format=mtree"@,
            "--options=!all,use-set,type,uid,gid,mode,time,size,sha256,link"@,
            "--uid"@,
            "0"@,
            "--gid"@,
            "0"@,
            "--uname"@,
            "root"@,
            "--gname"@,
            "root"@,
            "--null"@,
            "--files-from"@,
        ]);
        assert(crate::lists::str_views(end@) =~= seq!["--exclude"@, ".MTREE"@]);
        assert(byte_lists(arguments@) =~= mtree_arguments(list_path@, source_date_epoch));
    }
    Ok(MtreePlan { list, arguments })
}

/// Plan the standard `.MTREE` file of a package root.
pub fn generate_mtree(relative: &Vec<Vec<u8>>, list_path: &[u8]) -> (result: Result<MtreePlan>)
    ensures
        outcome(result) == mtree_plan_of(byte_lists(relative@), list_path@, None),
{
    generate_mtree_with_epoch(relative, list_path, None)
}

// ---------------------------------------------------------------------------
// Laws
// ---------------------------------------------------------------------------
/// A reader that splits a NUL-delimited list gets back the paths, and an empty
/// rest.
pub proof fn nul_lists_give_back_the_paths(paths: Seq<Seq<u8>>)
    requires
        free_of_nul(paths),
    ensures
        split_bytes(nul_bytes(paths), 0) == paths.push(seq![]),
    decreases paths.len(),
{
    let empty = Seq::<u8>::empty();
    assert(split_bytes(empty, 0) =~= seq![empty]);
    if paths.len() == 0 {
        assert(nul_bytes(paths) =~= empty);
        assert(paths.push(seq![]) =~= seq![empty]);
    } else {
        let before = paths.drop_last();
        assert(free_of_nul(before)) by {
            assert forall|index: int| 0 <= index < before.len() implies !(
            #[trigger] before[index]).contains(0) by {
                assert(!paths[index].contains(0));
            }
        }
        assert(!paths[paths.len() - 1].contains(0));
        nul_lists_give_back_the_paths(before);
        lemma_append_part(nul_bytes(before), before, paths.last());
        assert(paths.push(seq![]) =~= before.push(paths.last()).push(seq![]));
    }
}

/// One more part and its end mark behind bytes that split into given parts.
proof fn lemma_append_part(bytes: Seq<u8>, parts: Seq<Seq<u8>>, part: Seq<u8>)
    requires
        split_bytes(bytes, 0) == parts.push(seq![]),
        !part.contains(0),
    ensures
        split_bytes(bytes + part.push(0), 0) == parts.push(part).push(seq![]),
{
    let empty = Seq::<u8>::empty();
    assert(bytes + part.push(0) =~= (bytes + part).push(0) + empty);
    split_undoes_join(bytes + part, empty, 0);
    assert(split_bytes(empty, 0) =~= seq![empty]);
    lemma_longer_last_part(bytes, part);
    assert(split_bytes(bytes + part, 0) =~= parts.push(part)) by {
        assert(parts.push(seq![]).last() + part =~= part);
        assert(parts.push(seq![]).drop_last() =~= parts);
    }
    assert(split_bytes(bytes + part.push(0), 0) =~= parts.push(part).push(empty));
}

proof fn lemma_longer_last_part(bytes: Seq<u8>, part: Seq<u8>)
    requires
        !part.contains(0),
    ensures
        split_bytes(bytes, 0).len() > 0,
        split_bytes(bytes + part, 0) == split_bytes(bytes, 0).drop_last().push(
            split_bytes(bytes, 0).last() + part,
        ),
    decreases bytes.len(),
{
    let whole = bytes + part;
    let at = crate::bytes::byte_position(bytes, 0) as int;
    crate::bytes::lemma_byte_position(bytes, 0);
    if at < bytes.len() {
        assert forall|index: int| 0 <= index < at implies #[trigger] whole[index] != 0 by {
            assert(bytes[index] != 0);
        }
        crate::bytes::lemma_byte_position_is(whole, 0, at);
        lemma_longer_last_part(bytes.skip(at + 1), part);
        assert(whole.skip(at + 1) =~= bytes.skip(at + 1) + part);
        assert(whole.take(at) =~= bytes.take(at));
        let rest = split_bytes(bytes.skip(at + 1), 0);
        assert(split_bytes(bytes, 0) =~= seq![bytes.take(at)] + rest);
        assert(split_bytes(whole, 0) =~= split_bytes(bytes, 0).drop_last().push(
            split_bytes(bytes, 0).last() + part,
        ));
    } else {
        assert forall|index: int| 0 <= index < whole.len() implies #[trigger] whole[index] != 0 by {
            if index < bytes.len() {
                assert(bytes[index] != 0);
            } else {
                assert(part.contains(part[index - bytes.len()]));
            }
        }
        crate::bytes::lemma_byte_position_is(whole, 0, whole.len() as int);
        assert(split_bytes(bytes, 0) =~= seq![bytes]);
        assert(split_bytes(whole, 0) =~= split_bytes(bytes, 0).drop_last().push(
            split_bytes(bytes, 0).last() + part,
        ));
    }
}

} // verus!
