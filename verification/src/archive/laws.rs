//! What the lists of files in a package promise.

use vstd::prelude::*;
use vstd::utf8::encode_utf8;

use crate::archive::files::{
    dotted_paths, epoch_fault, free_of_nul, indexed_files, is_index,
    lists_hold_a_nul_for_each_path, mtree_arguments, mtree_plan_of, nul_count, nul_list,
    nul_lists_give_back_the_paths, sorted_file_list, MtreeModel,
};
use crate::archive::gzip::{
    crc32, crc_after, gzip_stream, last_block, little_32, stored_blocks,
    stored_blocks_give_back_the_bytes, unstored,
};
use crate::archive::members::{archive_of, listed_names, names_of_lines, DebModel, MemberRule};
use crate::archive::package::{
    archive_path, archive_paths, build_answers, next_build_step, package_arguments, BuildEvent,
    BuildModel, PackageOptions,
};
use crate::bytes::{
    begins_with, bytes_before, in_byte_order, lemma_byte_sorted, split_bytes,
};
use crate::compatibility::integer::{field, unsigned};
use crate::compatibility::laws::byte_orders_are_opposite;
use crate::lists::lemma_only_one;
use crate::number::{decimal, decimal_has_only_digits, signed_decimal};
use crate::paths::{
    is_absolute_path, is_plain_name, joined_names_lie_directly_below, joined_path, name_of,
    path_components, words_are_plain_names, ComponentModel,
};
use crate::process::zstd_words;
use crate::text::is_digit;

verus! {

// ---------------------------------------------------------------------------
// Multisets
// ---------------------------------------------------------------------------
proof fn lemma_map_multiset(
    one: Seq<Seq<u8>>,
    two: Seq<Seq<u8>>,
    map: spec_fn(Seq<u8>) -> Seq<u8>,
)
    requires
        one.to_multiset() == two.to_multiset(),
    ensures
        one.map_values(map).to_multiset() == two.map_values(map).to_multiset(),
    decreases one.len(),
{
    broadcast use vstd::seq_lib::group_to_multiset_ensures;

    assert(one.to_multiset().len() == one.len());
    assert(two.to_multiset().len() == two.len());
    if one.len() == 0 {
        assert(one =~= two);
    } else {
        let last = one.last();
        assert(one.contains(one[one.len() - 1]));
        assert(one.to_multiset().count(last) > 0);
        assert(two.contains(last));
        let at = choose|at: int| 0 <= at < two.len() && two[at] == last;
        let fewer = one.drop_last();
        let rest = two.remove(at);
        assert(one =~= fewer.push(last));
        assert(fewer.to_multiset() =~= one.to_multiset().remove(last));
        assert(rest.to_multiset() =~= two.to_multiset().remove(last));
        lemma_map_multiset(fewer, rest, map);
        assert(one.map_values(map) =~= fewer.map_values(map).push(map(last)));
        assert(two.map_values(map).remove(at) =~= rest.map_values(map));
        assert(two.map_values(map)[at] == map(last));
        assert(two.map_values(map).contains(map(last)));
        assert(two.map_values(map).to_multiset() =~= rest.map_values(map).to_multiset().insert(
            map(last),
        ));
    }
}

proof fn lemma_filter_multiset(
    one: Seq<Seq<u8>>,
    two: Seq<Seq<u8>>,
    pred: spec_fn(Seq<u8>) -> bool,
)
    requires
        one.to_multiset() == two.to_multiset(),
    ensures
        one.filter(pred).to_multiset() == two.filter(pred).to_multiset(),
    decreases one.len(),
{
    broadcast use vstd::seq_lib::group_to_multiset_ensures;

    reveal(Seq::filter);
    assert(one.to_multiset().len() == one.len());
    assert(two.to_multiset().len() == two.len());
    if one.len() == 0 {
        assert(one =~= two);
    } else {
        let last = one.last();
        assert(one.contains(one[one.len() - 1]));
        assert(one.to_multiset().count(last) > 0);
        assert(two.contains(last));
        let at = choose|at: int| 0 <= at < two.len() && two[at] == last;
        let fewer = one.drop_last();
        let rest = two.remove(at);
        assert(one =~= fewer.push(last));
        assert(fewer.to_multiset() =~= one.to_multiset().remove(last));
        assert(rest.to_multiset() =~= two.to_multiset().remove(last));
        lemma_filter_multiset(fewer, rest, pred);
        let start = two.take(at);
        let end = two.skip(at + 1);
        assert(two =~= start + seq![last] + end);
        assert(rest =~= start + end);
        Seq::filter_distributes_over_add(start + seq![last], end, pred);
        Seq::filter_distributes_over_add(start, seq![last], pred);
        Seq::filter_distributes_over_add(start, end, pred);
        let kept = seq![last].filter(pred);
        assert(Seq::<Seq<u8>>::empty().filter(pred) =~= seq![]);
        assert(seq![last].drop_last() =~= seq![]);
        let first = start.filter(pred);
        let second = end.filter(pred);
        if pred(last) {
            assert(kept =~= seq![last]);
            assert((first + kept + second).remove(first.len() as int) =~= first + second);
            assert((first + kept + second)[first.len() as int] == last);
            assert((first + kept + second).contains(last));
            assert(two.filter(pred).to_multiset() =~= rest.filter(pred).to_multiset().insert(last));
        } else {
            assert(kept =~= seq![]);
            assert(first + kept + second =~= first + second);
        }
    }
}

// ---------------------------------------------------------------------------
// Archives
// ---------------------------------------------------------------------------
/// No path of a list starts at the root.
pub open spec fn are_relative(paths: Seq<Seq<u8>>) -> bool {
    forall|index: int| 0 <= index < paths.len() ==> !is_absolute_path(#[trigger] paths[index])
}

proof fn lemma_dot()
    ensures
        encode_utf8("."@) == seq![46u8],
        encode_utf8("./"@) == seq![46u8, 47u8],
{
    reveal_strlit(".");
    reveal_strlit("./");
    vstd::utf8::is_ascii_chars_encode_utf8("."@);
    vstd::utf8::is_ascii_chars_encode_utf8("./"@);
    assert(encode_utf8("."@) =~= seq![46u8]);
    assert(encode_utf8("./"@) =~= seq![46u8, 47u8]);
}

proof fn lemma_dotted_path(path: Seq<u8>)
    requires
        !is_absolute_path(path),
    ensures
        joined_path(encode_utf8("."@), path) == seq![46u8, 47u8] + path,
        archive_path(joined_path(encode_utf8("."@), path)) == path,
{
    lemma_dot();
    let dotted = joined_path(encode_utf8("."@), path);
    assert(dotted =~= seq![46u8, 47u8] + path);
    assert(dotted.take(2) =~= seq![46u8, 47u8]);
    assert(dotted.skip(2) =~= path);
}

proof fn lemma_same_start(left: Seq<u8>, right: Seq<u8>)
    ensures
        bytes_before(seq![46u8, 47u8] + left, seq![46u8, 47u8] + right) == bytes_before(left, right),
{
    reveal_with_fuel(bytes_before, 3);
    assert((seq![46u8, 47u8] + left).drop_first().drop_first() =~= left);
    assert((seq![46u8, 47u8] + right).drop_first().drop_first() =~= right);
}

proof fn lemma_archive_paths(files: Seq<Seq<u8>>)
    requires
        are_relative(files),
    ensures
        archive_paths(files).to_multiset() == files.to_multiset(),
        archive_paths(files).len() == files.len(),
        in_byte_order(archive_paths(files)),
{
    broadcast use vstd::seq_lib::group_to_multiset_ensures;

    let dotted = dotted_paths(files);
    let sorted = sorted_file_list(files);
    let paths = archive_paths(files);
    let strip = |path: Seq<u8>| archive_path(path);
    lemma_byte_sorted(dotted);
    lemma_map_multiset(sorted, dotted, strip);
    assert(dotted.map_values(strip) =~= files) by {
        assert forall|index: int| 0 <= index < files.len() implies dotted.map_values(strip)[index]
            == files[index] by {
            lemma_dotted_path(files[index]);
        }
    }
    assert(paths =~= sorted.map_values(strip));
    assert forall|first: int, second: int| 0 <= first < second < paths.len() implies !bytes_before(
        #[trigger] paths[second],
        #[trigger] paths[first],
    ) by {
        lemma_sorted_is_dotted(files, first);
        lemma_sorted_is_dotted(files, second);
        lemma_same_start(paths[second], paths[first]);
        assert(!bytes_before(sorted[second], sorted[first]));
    }
}

proof fn lemma_sorted_is_dotted(files: Seq<Seq<u8>>, index: int)
    requires
        are_relative(files),
        0 <= index < sorted_file_list(files).len(),
    ensures
        sorted_file_list(files)[index] == seq![46u8, 47u8] + archive_path(
            sorted_file_list(files)[index],
        ),
        files.contains(archive_path(sorted_file_list(files)[index])),
{
    broadcast use vstd::seq_lib::group_to_multiset_ensures;

    let dotted = dotted_paths(files);
    let sorted = sorted_file_list(files);
    lemma_byte_sorted(dotted);
    assert(sorted.contains(sorted[index]));
    assert(sorted.to_multiset().count(sorted[index]) > 0);
    assert(dotted.contains(sorted[index]));
    let at = choose|at: int| 0 <= at < dotted.len() && dotted[at] == sorted[index];
    lemma_dotted_path(files[at]);
    assert(files[at] == archive_path(sorted[index]));
}

/// An archive holds every file below the package root: the parts of its list
/// between the NUL bytes are the files, each as often as it was found, in the
/// order of their bytes.
pub proof fn archives_hold_every_file(
    root: Seq<u8>,
    directory: Seq<u8>,
    package: Seq<u8>,
    options: PackageOptions,
    files: Seq<Seq<u8>>,
    next: BuildModel,
)
    requires
        are_relative(files),
        next_build_step(
            (BuildModel::List { root, directory, package, options }),
            BuildEvent::Files(files),
        ) == Ok::<BuildModel, Seq<char>>(next),
    ensures
        next matches BuildModel::WriteList { list, .. } && {
            let parts = split_bytes(list, 0).drop_last();
            &&& parts.to_multiset() == files.to_multiset()
            &&& parts.len() == files.len()
            &&& nul_count(list) == files.len()
            &&& in_byte_order(parts)
            &&& forall|index: int|
                0 <= index < files.len() ==> parts.contains(#[trigger] files[index])
            &&& forall|index: int|
                0 <= index < parts.len() ==> files.contains(#[trigger] parts[index])
        },
{
    broadcast use vstd::seq_lib::group_to_multiset_ensures;

    let paths = archive_paths(files);
    lemma_archive_paths(files);
    let list = nul_list(paths)->Ok_0;
    nul_lists_give_back_the_paths(paths);
    lists_hold_a_nul_for_each_path(paths);
    let parts = split_bytes(list, 0).drop_last();
    assert(parts =~= paths);
    assert forall|index: int| 0 <= index < files.len() implies parts.contains(
        #[trigger] files[index],
    ) by {
        assert(files.contains(files[index]));
        assert(files.to_multiset().count(files[index]) > 0);
    }
    assert forall|index: int| 0 <= index < parts.len() implies files.contains(
        #[trigger] parts[index],
    ) by {
        assert(parts.contains(parts[index]));
        assert(parts.to_multiset().count(parts[index]) > 0);
    }
}

/// A package root with something in it, and without NUL bytes in its paths, is
/// packed.
pub proof fn roots_with_files_are_packed(
    root: Seq<u8>,
    directory: Seq<u8>,
    package: Seq<u8>,
    options: PackageOptions,
    files: Seq<Seq<u8>>,
)
    requires
        are_relative(files),
    ensures
        next_build_step(
            (BuildModel::List { root, directory, package, options }),
            BuildEvent::Files(files),
        ) is Ok <==> files.len() > 0 && forall|index: int|
            0 <= index < files.len() ==> !(#[trigger] files[index]).contains(0),
{
    broadcast use vstd::seq_lib::group_to_multiset_ensures;

    let paths = archive_paths(files);
    lemma_archive_paths(files);
    if forall|index: int| 0 <= index < files.len() ==> !(#[trigger] files[index]).contains(0) {
        assert forall|index: int| 0 <= index < paths.len() implies !(
        #[trigger] paths[index]).contains(0) by {
            assert(paths.contains(paths[index]));
            assert(paths.to_multiset().count(paths[index]) > 0);
            assert(files.contains(paths[index]));
            let at = choose|at: int| 0 <= at < files.len() && files[at] == paths[index];
            assert(!files[at].contains(0));
        }
    }
    if free_of_nul(paths) {
        assert forall|index: int| 0 <= index < files.len() implies !(
        #[trigger] files[index]).contains(0) by {
            assert(files.contains(files[index]));
            assert(files.to_multiset().count(files[index]) > 0);
            assert(paths.contains(files[index]));
            let at = choose|at: int| 0 <= at < paths.len() && paths[at] == files[index];
            assert(!paths[at].contains(0));
        }
    }
}

// ---------------------------------------------------------------------------
// Index
// ---------------------------------------------------------------------------
proof fn lemma_index_components()
    ensures
        path_components(encode_utf8("./.MTREE"@)) == path_components(encode_utf8("."@)).push(
            ComponentModel::Name(encode_utf8(".MTREE"@)),
        ),
        joined_path(encode_utf8("."@), encode_utf8(".MTREE"@)) == encode_utf8("./.MTREE"@),
        is_plain_name(encode_utf8(".MTREE"@)),
{
    reveal_strlit("./.MTREE");
    reveal_strlit(".MTREE");
    reveal_strlit(".");
    vstd::utf8::is_ascii_chars_encode_utf8("./.MTREE"@);
    vstd::utf8::is_ascii_chars_encode_utf8(".MTREE"@);
    vstd::utf8::is_ascii_chars_encode_utf8("."@);
    words_are_plain_names(".MTREE"@);
    joined_names_lie_directly_below(encode_utf8("."@), encode_utf8(".MTREE"@));
    assert(joined_path(encode_utf8("."@), encode_utf8(".MTREE"@)) =~= encode_utf8("./.MTREE"@));
}

/// The index lists every file below the package root but itself: each file with
/// another name stands behind `./` in its list, as often as it was found, and
/// nothing else does.
pub proof fn the_index_lists_every_other_file(
    files: Seq<Seq<u8>>,
    list_path: Seq<u8>,
    epoch: Option<i64>,
    plan: MtreeModel,
    index: int,
)
    requires
        are_relative(files),
        mtree_plan_of(files, list_path, epoch) == Ok::<MtreeModel, Seq<char>>(plan),
        0 <= index < files.len(),
    ensures
        ({
            let parts = split_bytes(plan.list, 0).drop_last();
            &&& in_byte_order(parts)
            &&& name_of(seq![46u8, 47u8] + files[index]) != Some(encode_utf8(".MTREE"@))
                ==> parts.contains(seq![46u8, 47u8] + files[index])
            &&& !parts.contains(encode_utf8("./.MTREE"@))
            &&& forall|at: int|
                0 <= at < parts.len() ==> (#[trigger] parts[at]).len() >= 2 && parts[at].take(2)
                    == seq![46u8, 47u8] && files.contains(parts[at].skip(2))
        }),
{
    broadcast use vstd::seq_lib::group_to_multiset_ensures;

    let dotted = dotted_paths(files);
    let sorted = sorted_file_list(files);
    let kept = indexed_files(files);
    let pred = |path: Seq<u8>| !is_index(path);
    let own = encode_utf8("./.MTREE"@);
    lemma_byte_sorted(dotted);
    lemma_index_components();
    nul_lists_give_back_the_paths(kept);
    let parts = split_bytes(plan.list, 0).drop_last();
    assert(parts =~= kept);
    let path = seq![46u8, 47u8] + files[index];
    lemma_dotted_path(files[index]);
    assert(dotted[index] == path);
    if name_of(path) != Some(encode_utf8(".MTREE"@)) {
        assert(!is_index(path)) by {
            if is_index(path) {
                assert(path_components(own).last() == ComponentModel::Name(
                    encode_utf8(".MTREE"@),
                ));
            }
        }
        assert(dotted.contains(path));
        assert(dotted.to_multiset().count(path) > 0);
        assert(sorted.contains(path));
        let at = choose|at: int| 0 <= at < sorted.len() && sorted[at] == path;
        sorted.lemma_filter_contains(pred, at);
    }
    if kept.contains(own) {
        let at = choose|at: int| 0 <= at < kept.len() && kept[at] == own;
        sorted.lemma_filter_pred(pred, at);
    }
    assert forall|at: int| 0 <= at < parts.len() implies (#[trigger] parts[at]).len() >= 2
        && parts[at].take(2) == seq![46u8, 47u8] && files.contains(parts[at].skip(2)) by {
        let place = lemma_filter_places(sorted, pred, at, at);
        lemma_sorted_is_dotted(files, place.0);
        let bare = archive_path(sorted[place.0]);
        assert(parts[at] == seq![46u8, 47u8] + bare);
        assert(parts[at].take(2) =~= seq![46u8, 47u8]);
        assert(parts[at].skip(2) =~= bare);
    }
    assert forall|first: int, second: int| 0 <= first < second < parts.len() implies !bytes_before(
        #[trigger] parts[second],
        #[trigger] parts[first],
    ) by {
        let place = lemma_filter_places(sorted, pred, first, second);
        assert(!bytes_before(sorted[place.1], sorted[place.0]));
    }
}

/// What a filter keeps stands in the list, in the same order.
proof fn lemma_filter_places(
    list: Seq<Seq<u8>>,
    pred: spec_fn(Seq<u8>) -> bool,
    first: int,
    second: int,
) -> (places: (int, int))
    requires
        0 <= first <= second < list.filter(pred).len(),
    ensures
        0 <= places.0 <= places.1 < list.len(),
        first < second ==> places.0 < places.1,
        list[places.0] == list.filter(pred)[first],
        list[places.1] == list.filter(pred)[second],
    decreases list.len(),
{
    reveal(Seq::filter);
    let before = list.drop_last().filter(pred);
    if second < before.len() {
        lemma_filter_places(list.drop_last(), pred, first, second)
    } else if first < before.len() {
        let places = lemma_filter_places(list.drop_last(), pred, first, first);
        (places.0, list.len() - 1)
    } else {
        (list.len() - 1, list.len() - 1)
    }
}

/// The number of entries of the index is the number of files that are not the
/// index itself.
pub proof fn the_index_counts_the_files(
    files: Seq<Seq<u8>>,
    list_path: Seq<u8>,
    epoch: Option<i64>,
    plan: MtreeModel,
)
    requires
        are_relative(files),
        mtree_plan_of(files, list_path, epoch) == Ok::<MtreeModel, Seq<char>>(plan),
    ensures
        split_bytes(plan.list, 0).drop_last().to_multiset() == files.map_values(
            |path: Seq<u8>| seq![46u8, 47u8] + path,
        ).filter(
            |path: Seq<u8>| path_components(path) != path_components(encode_utf8("./.MTREE"@)),
        ).to_multiset(),
{
    let dotted = dotted_paths(files);
    let sorted = sorted_file_list(files);
    let pred = |path: Seq<u8>| !is_index(path);
    let other = |path: Seq<u8>| path_components(path) != path_components(encode_utf8("./.MTREE"@));
    let dot = |path: Seq<u8>| seq![46u8, 47u8] + path;
    lemma_byte_sorted(dotted);
    lemma_filter_multiset(sorted, dotted, pred);
    nul_lists_give_back_the_paths(indexed_files(files));
    assert(split_bytes(plan.list, 0).drop_last() =~= indexed_files(files));
    assert(pred =~= other);
    assert(dotted =~= files.map_values(dot)) by {
        assert forall|index: int| 0 <= index < files.len() implies dotted[index]
            == files.map_values(dot)[index] by {
            lemma_dotted_path(files[index]);
        }
    }
}

// ---------------------------------------------------------------------------
// Arguments
// ---------------------------------------------------------------------------
/// An option stands among the arguments, with a value behind it.
pub open spec fn hands_over(arguments: Seq<Seq<u8>>, option: Seq<char>, value: Seq<u8>) -> bool {
    exists|index: int|
        0 <= index < arguments.len() - 1 && #[trigger] arguments[index] == encode_utf8(option)
            && arguments[index + 1] == value
}

/// The arguments give all files to the owner and the group of the system.
pub open spec fn belongs_to_root(arguments: Seq<Seq<u8>>) -> bool {
    &&& hands_over(arguments, "--uid"@, encode_utf8("0"@))
    &&& hands_over(arguments, "--gid"@, encode_utf8("0"@))
    &&& hands_over(arguments, "--uname"@, encode_utf8("root"@))
    &&& hands_over(arguments, "--gname"@, encode_utf8("root"@))
}

proof fn lemma_handed(arguments: Seq<Seq<u8>>, option: Seq<char>, value: Seq<u8>, index: int)
    requires
        0 <= index < arguments.len() - 1,
        arguments[index] == encode_utf8(option),
        arguments[index + 1] == value,
    ensures
        hands_over(arguments, option, value),
{
}

/// An archive is made of exactly the listed files of its root, which belong to
/// the owner and the group of the system; the level reaches the compression, and
/// the places and the options stay what they were.
pub proof fn archives_are_made_of_their_root(
    root: Seq<u8>,
    directory: Seq<u8>,
    package: Seq<u8>,
    options: PackageOptions,
    list: Seq<u8>,
    list_path: Seq<u8>,
    next: BuildModel,
)
    requires
        next_build_step(
            (BuildModel::WriteList { root, directory, package, options, list }),
            BuildEvent::Created(list_path),
        ) == Ok::<BuildModel, Seq<char>>(next),
    ensures
        next matches BuildModel::Compress {
            directory: place,
            package: output,
            options: kept,
            list_path: listed,
            arguments,
            compression,
        } && {
            &&& place == directory
            &&& output == package
            &&& kept == options
            &&& listed == list_path
            &&& hands_over(arguments, "-C"@, root)
            &&& hands_over(arguments, "--files-from"@, list_path)
            &&& arguments.contains(encode_utf8("--null"@))
            &&& arguments.contains(encode_utf8("--no-recursion"@))
            &&& belongs_to_root(arguments)
            &&& options.source_date_epoch matches Some(seconds) ==> hands_over(
                arguments,
                "--mtime"@,
                encode_utf8("@"@ + signed_decimal(seconds as int)),
            )
            &&& options.source_date_epoch is None ==> arguments.len() == 18
            &&& compression.contains("-"@ + signed_decimal(options.zstd_level as int))
            &&& compression.contains("--stdout"@)
            &&& compression.contains("--ultra"@) <==> options.zstd_level > 19
        },
{
    let arguments = package_arguments(root, list_path, options.source_date_epoch);
    assert(arguments[4] == encode_utf8("--uid"@) && arguments[5] == encode_utf8("0"@));
    lemma_handed(arguments, "--uid"@, encode_utf8("0"@), 4);
    assert(arguments[6] == encode_utf8("--gid"@) && arguments[7] == encode_utf8("0"@));
    lemma_handed(arguments, "--gid"@, encode_utf8("0"@), 6);
    assert(arguments[8] == encode_utf8("--uname"@) && arguments[9] == encode_utf8("root"@));
    lemma_handed(arguments, "--uname"@, encode_utf8("root"@), 8);
    assert(arguments[10] == encode_utf8("--gname"@) && arguments[11] == encode_utf8("root"@));
    lemma_handed(arguments, "--gname"@, encode_utf8("root"@), 10);
    assert(arguments[12] == encode_utf8("--no-recursion"@));
    assert(arguments[13] == encode_utf8("-C"@) && arguments[14] == root);
    lemma_handed(arguments, "-C"@, root, 13);
    assert(arguments[15] == encode_utf8("--null"@));
    assert(arguments[16] == encode_utf8("--files-from"@) && arguments[17] == list_path);
    lemma_handed(arguments, "--files-from"@, list_path, 16);
    if let Some(seconds) = options.source_date_epoch {
        let time = encode_utf8("@"@ + signed_decimal(seconds as int));
        assert(arguments[18] == encode_utf8("--mtime"@) && arguments[19] == time);
        lemma_handed(arguments, "--mtime"@, time, 18);
    }
    lemma_zstd_words(options.zstd_level);
}

proof fn lemma_zstd_words(level: i32)
    requires
        1 <= level <= 22,
    ensures
        zstd_words(level).contains("-"@ + signed_decimal(level as int)),
        zstd_words(level).contains("--stdout"@),
        zstd_words(level).contains("--ultra"@) <==> level > 19,
{
    let words = zstd_words(level);
    reveal_strlit("--ultra");
    reveal_strlit("--threads=0");
    reveal_strlit("--quiet");
    reveal_strlit("--stdout");
    reveal_strlit("--");
    reveal_strlit("-");
    let start: int = if level > 19 {
        1
    } else {
        0
    };
    assert(words[start] == "-"@ + signed_decimal(level as int));
    assert(words[start + 3] == "--stdout"@);
    if level > 19 {
        assert(words[0] == "--ultra"@);
    } else if words.contains("--ultra"@) {
        let at = choose|at: int| 0 <= at < words.len() && words[at] == "--ultra"@;
        decimal_has_only_digits(level as nat);
        assert(at == 0 || at == 1 || at == 2 || at == 3 || at == 4);
        assert(words[0][1] == decimal(level as nat)[0]);
        assert(is_digit(decimal(level as nat)[0]));
        assert(words[1].len() == 11);
        assert(words[2][2] == 'q');
        assert(words[3].len() == 8);
        assert(words[4].len() == 2);
        assert(words[at].len() == 7 && words[at][1] == '-' && words[at][2] == 'u');
    }
}

/// The index is made of exactly the listed files, which belong to the owner and
/// the group of the system, with what pacman tests of each of them.
pub proof fn the_index_tells_what_is_tested(
    files: Seq<Seq<u8>>,
    list_path: Seq<u8>,
    epoch: Option<i64>,
    plan: MtreeModel,
)
    requires
        mtree_plan_of(files, list_path, epoch) == Ok::<MtreeModel, Seq<char>>(plan),
    ensures
        hands_over(plan.arguments, "--files-from"@, list_path),
        plan.arguments.contains(encode_utf8("--null"@)),
        plan.arguments.contains(encode_utf8("--format=mtree"@)),
        plan.arguments.contains(
            encode_utf8("--options=!all,use-set,type,uid,gid,mode,time,size,sha256,link"@),
        ),
        belongs_to_root(plan.arguments),
        epoch matches Some(seconds) ==> seconds >= 0 && hands_over(
            plan.arguments,
            "--mtime"@,
            encode_utf8("@"@ + signed_decimal(seconds as int)),
        ),
        epoch is None ==> plan.arguments.len() == 17,
{
    let arguments = mtree_arguments(list_path, epoch);
    assert(arguments[2] == encode_utf8("--format=mtree"@));
    assert(arguments[3] == encode_utf8(
        "--options=!all,use-set,type,uid,gid,mode,time,size,sha256,link"@,
    ));
    assert(arguments[4] == encode_utf8("--uid"@) && arguments[5] == encode_utf8("0"@));
    lemma_handed(arguments, "--uid"@, encode_utf8("0"@), 4);
    assert(arguments[6] == encode_utf8("--gid"@) && arguments[7] == encode_utf8("0"@));
    lemma_handed(arguments, "--gid"@, encode_utf8("0"@), 6);
    assert(arguments[8] == encode_utf8("--uname"@) && arguments[9] == encode_utf8("root"@));
    lemma_handed(arguments, "--uname"@, encode_utf8("root"@), 8);
    assert(arguments[10] == encode_utf8("--gname"@) && arguments[11] == encode_utf8("root"@));
    lemma_handed(arguments, "--gname"@, encode_utf8("root"@), 10);
    assert(arguments[12] == encode_utf8("--null"@));
    assert(arguments[13] == encode_utf8("--files-from"@) && arguments[14] == list_path);
    lemma_handed(arguments, "--files-from"@, list_path, 13);
    if let Some(seconds) = epoch {
        let time = encode_utf8("@"@ + signed_decimal(seconds as int));
        assert(arguments[17] == encode_utf8("--mtime"@) && arguments[18] == time);
        lemma_handed(arguments, "--mtime"@, time, 17);
    }
}

// ---------------------------------------------------------------------------
// Members
// ---------------------------------------------------------------------------
/// Exactly one name of a list starts with a text.
pub open spec fn is_only_start(names: Seq<Seq<u8>>, start: Seq<u8>, name: Seq<u8>) -> bool {
    exists|index: int|
        {
            &&& 0 <= index < names.len()
            &&& #[trigger] names[index] == name
            &&& begins_with(name, start)
            &&& forall|other: int|
                0 <= other < names.len() && other != index ==> !begins_with(
                    #[trigger] names[other],
                    start,
                )
        }
}

/// The control archive and the data archive of a Debian package are the only
/// members with their names, and the package says its format in one member.  The
/// three are extracted to different files.
pub proof fn members_are_the_only_ones(
    listing: Seq<u8>,
    directory: Seq<u8>,
    names: Seq<Seq<u8>>,
    archive: DebModel,
)
    requires
        listed_names(listing) == Ok::<Seq<Seq<u8>>, Seq<char>>(names),
        archive_of(listing, directory) == Ok::<DebModel, Seq<char>>(archive),
    ensures
        is_only_start(names, encode_utf8("control.tar"@), archive.control_member_name),
        is_only_start(names, encode_utf8("data.tar"@), archive.data_member_name),
        names.contains(encode_utf8("debian-binary"@)),
        archive.debian_binary == joined_path(directory, encode_utf8("debian-binary"@)),
        archive.control_member == joined_path(directory, encode_utf8("control.archive"@)),
        archive.data_member == joined_path(directory, encode_utf8("data.archive"@)),
{
    let control = MemberRule::StartsWith("control.tar");
    let data = MemberRule::StartsWith("data.tar");
    let binary = MemberRule::Exactly("debian-binary");
    lemma_only_one(names, |name: Seq<u8>| control.selects(name));
    lemma_only_one(names, |name: Seq<u8>| data.selects(name));
    lemma_only_one(names, |name: Seq<u8>| binary.selects(name));
}

/// Each line of a listing that is not empty gives one name: the line without a
/// carriage return and without the slash that ends a name.
pub proof fn every_listed_line_gives_a_name(all_lines: Seq<Seq<u8>>)
    ensures
        names_of_lines(all_lines) matches Ok(names) ==> {
            let named = all_lines.filter(|line: Seq<u8>| line.len() > 0);
            &&& names.len() == named.len()
            &&& forall|index: int|
                0 <= index < names.len() ==> (#[trigger] names[index]).len() > 0 && is_listed_as(
                    named[index],
                    names[index],
                )
        },
    decreases all_lines.len(),
{
    reveal(Seq::filter);
    if all_lines.len() > 0 {
        every_listed_line_gives_a_name(all_lines.drop_last());
        let line = all_lines.last();
        let bare = if line.len() > 0 && line.last() == 0x0d {
            line.drop_last()
        } else {
            line
        };
        assert(line.len() > 0 && line.last() == 0x0d ==> line =~= bare.push(0x0d));
        if bare.len() > 0 && bare.last() == 0x2f {
            assert(bare =~= bare.drop_last().push(0x2f));
        }
    }
}

/// The line is the name, with or without a slash and a carriage return.
pub open spec fn is_listed_as(line: Seq<u8>, name: Seq<u8>) -> bool {
    ||| line == name
    ||| line == name.push(0x2f)
    ||| line == name.push(0x0d)
    ||| line == name.push(0x2f).push(0x0d)
}

// ---------------------------------------------------------------------------
// Streams
// ---------------------------------------------------------------------------
/// A reader of a gzip stream gets back the bytes, and finds their checksum and
/// their length behind them.
pub proof fn streams_give_back_the_bytes(bytes: Seq<u8>)
    ensures
        ({
            let stream = gzip_stream(bytes);
            &&& stream.len() >= 10 && stream[0] == 0x1f && stream[1] == 0x8b && stream[2] == 8
                && stream[3] == 0
            &&& unstored(stream.skip(10)) matches Some((held, end)) && {
                &&& held == bytes
                &&& end.len() == 8
                &&& field(end, 0, 4, true) == crc32(bytes)
                &&& field(end, 4, 4, true) == bytes.len() % 0x1_0000_0000
            }
        }),
{
    let stream = gzip_stream(bytes);
    let sum = little_32(crc32(bytes));
    let count = little_32((bytes.len() % 0x1_0000_0000) as u32);
    let end = sum + count;
    stored_blocks_give_back_the_bytes(bytes, end);
    assert(stream.skip(10) =~= stored_blocks(bytes) + last_block() + end);
    assert(end.subrange(0, 4) =~= sum);
    assert(end.subrange(4, 8) =~= count);
    lemma_little_32(crc32(bytes));
    lemma_little_32((bytes.len() % 0x1_0000_0000) as u32);
}

proof fn lemma_little_32(value: u32)
    ensures
        unsigned(little_32(value), true) == value,
{
    let one = (value & 0xff) as u8;
    let two = ((value >> 8) & 0xff) as u8;
    let three = ((value >> 16) & 0xff) as u8;
    let four = ((value >> 24) & 0xff) as u8;
    let none = Seq::<u8>::empty();
    let all = little_32(value);
    byte_orders_are_opposite(none, four);
    byte_orders_are_opposite(seq![four], three);
    byte_orders_are_opposite(seq![three, four], two);
    byte_orders_are_opposite(seq![two, three, four], one);
    assert(seq![four] + none =~= seq![four]);
    assert(seq![three] + seq![four] =~= seq![three, four]);
    assert(seq![two] + seq![three, four] =~= seq![two, three, four]);
    assert(seq![one] + seq![two, three, four] =~= all);
    assert(value == ((value & 0xff) as u8) + 256 * (((value >> 8) & 0xff) as u8) + 65536 * (((value
        >> 16) & 0xff) as u8) + 16777216 * (((value >> 24) & 0xff) as u8)) by (bit_vector);
}

/// A checksum can be made piece by piece.
pub proof fn checksums_are_made_piece_by_piece(crc: u32, first: Seq<u8>, second: Seq<u8>)
    ensures
        crc_after(crc, first + second) == crc_after(crc_after(crc, first), second),
    decreases second.len(),
{
    if second.len() == 0 {
        assert(first + second =~= first);
    } else {
        assert((first + second).drop_last() =~= first + second.drop_last());
        assert((first + second).last() == second.last());
        checksums_are_made_piece_by_piece(crc, first, second.drop_last());
    }
}

// ---------------------------------------------------------------------------
// Steps
// ---------------------------------------------------------------------------
/// The steps of a package creation hand on what they know: the compressed file is
/// the one that is tested and published, under the name of the package and by
/// replacement exactly if that is asked for.
#[verifier::spinoff_prover]
pub proof fn the_compressed_file_is_published(
    step: BuildModel,
    event: BuildEvent,
    next: BuildModel,
)
    requires
        build_answers(step, event),
        next_build_step(step, event) == Ok::<BuildModel, Seq<char>>(next),
    ensures
        match (step, event, next) {
            (
                BuildModel::Compress { directory, package, options, list_path, .. },
                BuildEvent::Created(created),
                BuildModel::Validate {
                    directory: place,
                    package: output,
                    options: kept,
                    list_path: list,
                    partial,
                },
            ) => partial == created && place == directory && output == package && kept == options
                && list == list_path && options.validate_with_pacman,
            (
                BuildModel::Compress { directory, package, options, list_path, .. },
                BuildEvent::Created(created),
                BuildModel::Publish {
                    directory: place,
                    package: output,
                    overwrite,
                    list_path: list,
                    partial,
                },
            ) => partial == created && place == directory && output == package && overwrite
                == options.overwrite && list == list_path && !options.validate_with_pacman,
            (
                BuildModel::Validate { directory, package, options, list_path, partial },
                BuildEvent::Checked(_),
                BuildModel::Publish {
                    directory: place,
                    package: output,
                    overwrite,
                    list_path: list,
                    partial: file,
                },
            ) => file == partial && place == directory && output == package && overwrite
                == options.overwrite && list == list_path,
            (
                BuildModel::Publish { package, .. },
                BuildEvent::Done,
                BuildModel::Finished { package: output },
            ) => output == package,
            (
                BuildModel::Probe { root, directory, package, options },
                BuildEvent::Exists(_),
                BuildModel::List {
                    root: files,
                    directory: place,
                    package: output,
                    options: kept,
                },
            ) => files == root && place == directory && output == package && kept == options,
            (
                BuildModel::List { root, directory, package, options },
                BuildEvent::Files(_),
                BuildModel::WriteList {
                    root: files,
                    directory: place,
                    package: output,
                    options: kept,
                    ..
                },
            ) => files == root && place == directory && output == package && kept == options,
            (BuildModel::WriteList { .. }, _, BuildModel::Compress { .. }) => true,
            (
                BuildModel::Resolve { options, .. },
                BuildEvent::Resolved { root, directory },
                BuildModel::Probe { root: files, directory: place, options: kept, .. },
            ) => files == root && place == directory && kept == options,
            _ => false,
        },
{
}

/// A time before the epoch is refused, and every other one is taken.
pub proof fn times_before_the_epoch_are_refused(seconds: i64)
    ensures
        epoch_fault(Some(seconds)) is Some <==> seconds < 0,
        epoch_fault(None) is None,
{
}

} // verus!
