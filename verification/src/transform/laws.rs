//! What the change of a payload promises.

use vstd::prelude::*;
use vstd::utf8::encode_utf8;

use crate::bytes::{byte_lists, byte_sorted, lemma_byte_sorted};
use crate::encoding::lossy_text;
use crate::paths::{
    are_plain_names, is_absolute_path, joined_path, names_path, normalized_path, path_components,
    plain_paths_are_normal, SEPARATOR,
};
use crate::pieces::trim;
use crate::text::has_prefix;
use crate::transform::backup::{
    absent_warnings, configuration_path, configuration_paths_of, present_files,
};
use crate::transform::layout::{
    directories_are_emptied_first, following_steps, layout_moves, lib32_place, steps_after,
    triplets_of, EntryKind, MergeModel, ReplyModel,
};
use crate::transform::links::{
    below_root, link_change, moved_text, prefix_moves, rewritten_path, without_leading,
};
use crate::transform::report::{
    change_warnings, PayloadChanges, LINTIAN_WARNING, OPENCODE_WARNING,
};
use crate::transform::size::{
    added_size, installed_size_of_entries, is_payload_file, same_file, size_of_first, was_counted,
    SizedEntry,
};

verus! {

// ---------------------------------------------------------------------------
// Directories
// ---------------------------------------------------------------------------
/// The directories of a Debian payload that Arch does not have.
pub open spec fn moved_directories() -> Seq<Seq<char>> {
    seq![
        "bin"@,
        "sbin"@,
        "usr/sbin"@,
        "usr/games"@,
        "lib"@,
        "lib64"@,
        "usr/lib64"@,
        "lib32"@,
    ]
}

/// The change of the layout moves one directory below the root to another one.
pub open spec fn is_moved(
    root: Seq<u8>,
    architecture: Seq<char>,
    directory: Seq<char>,
    destination: Seq<char>,
) -> bool {
    layout_moves(root, architecture).contains(
        MergeModel::Inspect(
            joined_path(root, encode_utf8(directory)),
            joined_path(root, encode_utf8(destination)),
        ),
    )
}

proof fn lemma_no_prefix(text: Seq<char>, prefix: Seq<char>, index: int)
    requires
        0 <= index < text.len(),
        index < prefix.len(),
        text[index] != prefix[index],
    ensures
        !has_prefix(text, prefix),
{
    if has_prefix(text, prefix) {
        assert(text.take(prefix.len() as int)[index] == text[index]);
    }
}

proof fn lemma_moved(text: Seq<char>, moves: Seq<(Seq<char>, Seq<char>)>, index: int)
    requires
        0 <= index < moves.len(),
        has_prefix(text, moves[index].0),
        forall|earlier: int| 0 <= earlier < index ==> !has_prefix(text, (#[trigger] moves[earlier]).0),
    ensures
        moved_text(text, moves) == Some(
            joined_path(
                encode_utf8(moves[index].1),
                encode_utf8(text.skip(moves[index].0.len() as int)),
            ),
        ),
    decreases moves.len(),
{
    if index > 0 {
        assert(!has_prefix(text, moves[0].0));
        let rest = moves.drop_first();
        assert forall|earlier: int| 0 <= earlier < index - 1 implies !has_prefix(
            text,
            (#[trigger] rest[earlier]).0,
        ) by {
            assert(rest[earlier] == moves[earlier + 1]);
        }
        assert(rest[index - 1] == moves[index]);
        lemma_moved(text, rest, index - 1);
    }
}

proof fn lemma_not_moved(text: Seq<char>, moves: Seq<(Seq<char>, Seq<char>)>)
    requires
        forall|index: int| 0 <= index < moves.len() ==> !has_prefix(text, (#[trigger] moves[index]).0),
    ensures
        moved_text(text, moves) is None,
    decreases moves.len(),
{
    if moves.len() > 0 {
        let rest = moves.drop_first();
        assert(!has_prefix(text, moves[0].0));
        assert forall|index: int| 0 <= index < rest.len() implies !has_prefix(
            text,
            (#[trigger] rest[index]).0,
        ) by {
            assert(rest[index] == moves[index + 1]);
        }
        lemma_not_moved(text, rest);
    }
}

/// The places of the prefixes for the moved directories.
spec fn prefix_place(index: int) -> int {
    if index == 0 {
        3
    } else if index == 1 {
        4
    } else if index == 2 {
        0
    } else if index == 3 {
        1
    } else if index == 4 {
        6
    } else if index == 5 {
        5
    } else if index == 6 {
        2
    } else {
        7
    }
}

proof fn lemma_directory_texts()
    ensures
        "usr/sbin/"@ == "usr/sbin"@ + "/"@,
        "usr/games/"@ == "usr/games"@ + "/"@,
        "usr/lib64/"@ == "usr/lib64"@ + "/"@,
        "bin/"@ == "bin"@ + "/"@,
        "sbin/"@ == "sbin"@ + "/"@,
        "lib64/"@ == "lib64"@ + "/"@,
        "lib/"@ == "lib"@ + "/"@,
        "lib32/"@ == "lib32"@ + "/"@,
        "usr/bin/"@ == "usr/bin"@ + "/"@,
        "usr/lib/"@ == "usr/lib"@ + "/"@,
{
    reveal_strlit("usr/sbin/");
    reveal_strlit("usr/games/");
    reveal_strlit("usr/lib64/");
    reveal_strlit("bin/");
    reveal_strlit("sbin/");
    reveal_strlit("lib64/");
    reveal_strlit("lib/");
    reveal_strlit("lib32/");
    reveal_strlit("usr/bin/");
    reveal_strlit("usr/lib/");
    reveal_strlit("usr/sbin");
    reveal_strlit("usr/games");
    reveal_strlit("usr/lib64");
    reveal_strlit("bin");
    reveal_strlit("sbin");
    reveal_strlit("lib64");
    reveal_strlit("lib");
    reveal_strlit("lib32");
    reveal_strlit("usr/bin");
    reveal_strlit("usr/lib");
    reveal_strlit("/");
    assert("usr/sbin/"@ =~= "usr/sbin"@ + "/"@);
    assert("usr/games/"@ =~= "usr/games"@ + "/"@);
    assert("usr/lib64/"@ =~= "usr/lib64"@ + "/"@);
    assert("bin/"@ =~= "bin"@ + "/"@);
    assert("sbin/"@ =~= "sbin"@ + "/"@);
    assert("lib64/"@ =~= "lib64"@ + "/"@);
    assert("lib/"@ =~= "lib"@ + "/"@);
    assert("lib32/"@ =~= "lib32"@ + "/"@);
    assert("usr/bin/"@ =~= "usr/bin"@ + "/"@);
    assert("usr/lib/"@ =~= "usr/lib"@ + "/"@);
}

proof fn lemma_first_prefix(index: int, name: Seq<char>, architecture: Seq<char>)
    requires
        0 <= index < 8,
    ensures
        ({
            let text = moved_directories()[index] + "/"@ + name;
            let moves = prefix_moves().push(("lib32/"@, lib32_place(architecture)));
            let place = prefix_place(index);
            &&& moves[place].0 == moved_directories()[index] + "/"@
            &&& has_prefix(text, moves[place].0)
            &&& text.skip(moves[place].0.len() as int) == name
            &&& forall|earlier: int|
                0 <= earlier < place ==> !has_prefix(text, (#[trigger] moves[earlier]).0)
        }),
{
    lemma_directory_texts();
    let directory = moved_directories()[index];
    let text = directory + "/"@ + name;
    let moves = prefix_moves().push(("lib32/"@, lib32_place(architecture)));
    let place = prefix_place(index);
    let prefix = moves[place].0;
    assert(prefix == directory + "/"@);
    assert(text =~= prefix + name);
    assert(text.take(prefix.len() as int) =~= prefix);
    assert(text.skip(prefix.len() as int) =~= name);
    reveal_strlit("usr/sbin/");
    reveal_strlit("usr/games/");
    reveal_strlit("usr/lib64/");
    reveal_strlit("bin/");
    reveal_strlit("sbin/");
    reveal_strlit("lib64/");
    reveal_strlit("lib/");
    reveal_strlit("lib32/");
    assert forall|earlier: int| 0 <= earlier < place implies !has_prefix(
        text,
        (#[trigger] moves[earlier]).0,
    ) by {
        assert(text[0] == prefix[0]);
        assert(text[3] == prefix[3]);
        let other = moves[earlier].0;
        if place < 3 {
            assert(text[4] == prefix[4]);
            lemma_no_prefix(text, other, 4);
        } else if prefix[0] != other[0] {
            lemma_no_prefix(text, other, 0);
        } else {
            lemma_no_prefix(text, other, 3);
        }
    }
}

proof fn lemma_slash(start: Seq<char>, end: Seq<char>)
    requires
        vstd::utf8::is_ascii_chars(start),
        end == start + "/"@,
        start.len() > 0,
        start.last() != '/',
    ensures
        forall|path: Seq<u8>|
            #![trigger joined_path(encode_utf8(end), path)]
            joined_path(encode_utf8(end), path) == joined_path(encode_utf8(start), path),
{
    reveal_strlit("/");
    vstd::utf8::is_ascii_chars_encode_utf8(start);
    vstd::utf8::is_ascii_chars_encode_utf8(end);
    assert(encode_utf8(end) =~= encode_utf8(start).push(47u8));
    assert(encode_utf8(start).last() != 47u8);
    assert forall|path: Seq<u8>|
        #![trigger joined_path(encode_utf8(end), path)]
        joined_path(encode_utf8(end), path) == joined_path(encode_utf8(start), path) by {}
}

/// The moves of directories agree with the paths that links are rewritten to:
/// each directory that Arch does not have is moved, and a path in it becomes the
/// same name in the place that the directory is moved to.  Directories of
/// commands become `usr/bin`, and directories of libraries `usr/lib`, except for
/// the 32-bit libraries of a 64-bit host.
pub proof fn moves_agree_with_rewritten_paths(
    root: Seq<u8>,
    architecture: Seq<char>,
    index: int,
    name: Seq<char>,
    path: Seq<u8>,
)
    requires
        0 <= index < moved_directories().len(),
    ensures
        exists|destination: Seq<char>|
            {
                &&& #[trigger] is_moved(
                    root,
                    architecture,
                    moved_directories()[index],
                    destination,
                )
                &&& lossy_text(path) == moved_directories()[index] + "/"@ + name ==> rewritten_path(
                    path,
                    architecture,
                ) == joined_path(encode_utf8(destination), encode_utf8(name))
                &&& index < 4 ==> destination == "usr/bin"@
                &&& 4 <= index < 7 ==> destination == "usr/lib"@
                &&& index == 7 && architecture == "x86_64"@ ==> destination == "usr/lib32"@
                &&& index == 7 && architecture != "x86_64"@ ==> destination == "usr/lib"@
            },
{
    let directory = moved_directories()[index];
    let destination = if index < 4 {
        "usr/bin"@
    } else if index < 7 || architecture != "x86_64"@ {
        "usr/lib"@
    } else {
        "usr/lib32"@
    };
    let all = layout_moves(root, architecture);
    let step = MergeModel::Inspect(
        joined_path(root, encode_utf8(directory)),
        joined_path(root, encode_utf8(destination)),
    );
    assert(all[index] == step);
    assert(is_moved(root, architecture, directory, destination));
    let text = directory + "/"@ + name;
    let moves = prefix_moves().push(("lib32/"@, lib32_place(architecture)));
    let place = prefix_place(index);
    lemma_first_prefix(index, name, architecture);
    lemma_moved(text, moves, place);
    lemma_directory_texts();
    reveal_strlit("usr/bin");
    reveal_strlit("usr/lib");
    lemma_slash("usr/bin"@, "usr/bin/"@);
    lemma_slash("usr/lib"@, "usr/lib/"@);
    assert(joined_path(encode_utf8(moves[place].1), encode_utf8(name)) == joined_path(
        encode_utf8(destination),
        encode_utf8(name),
    ));
}

/// A path in no moved directory stays as it is.
pub proof fn other_paths_stay(path: Seq<u8>, architecture: Seq<char>)
    ensures
        (forall|index: int|
            0 <= index < moved_directories().len() ==> !has_prefix(
                lossy_text(path),
                (#[trigger] moved_directories()[index]) + "/"@,
            )) ==> rewritten_path(path, architecture) == path,
{
    let text = lossy_text(path);
    let all = moved_directories();
    if forall|index: int|
        0 <= index < all.len() ==> !has_prefix(text, (#[trigger] all[index]) + "/"@) {
        let moves = prefix_moves().push(("lib32/"@, lib32_place(architecture)));
        lemma_directory_texts();
        assert forall|at: int| 0 <= at < moves.len() implies !has_prefix(
            text,
            (#[trigger] moves[at]).0,
        ) by {
            let index: int = if at == 0 {
                2
            } else if at == 1 {
                3
            } else if at == 2 {
                6
            } else if at == 3 {
                0
            } else if at == 4 {
                1
            } else if at == 5 {
                5
            } else if at == 6 {
                4
            } else {
                7
            };
            assert(all[index] + "/"@ == moves[at].0);
        }
        lemma_not_moved(text, moves);
    }
}

/// The moves behind those of the directories empty the Debian library
/// directories of the architecture into `usr/lib`, one for each of its names.
pub proof fn library_directories_are_emptied(
    root: Seq<u8>,
    architecture: Seq<char>,
    index: int,
)
    requires
        0 <= index < triplets_of(architecture).len(),
    ensures
        layout_moves(root, architecture).len() == 8 + triplets_of(architecture).len(),
        ({
            let libraries = joined_path(root, encode_utf8("usr/lib"@));
            layout_moves(root, architecture)[8 + index] == MergeModel::Inspect(
                joined_path(libraries, encode_utf8(triplets_of(architecture)[index])),
                libraries,
            )
        }),
{
}

/// The Debian name of a library directory is the name of its architecture in
/// front of `-linux-gnu`, with the long name of the processor for `ppc64` and its
/// kin, and with the sort of floating point behind it for the 32-bit ARM ones.
/// Both names of the 32-bit Intel architecture count.
pub proof fn library_directories_carry_their_architecture(architecture: Seq<char>)
    ensures
        architecture == "x86_64"@ || architecture == "aarch64"@ || architecture == "riscv64"@
            || architecture == "s390x"@ ==> triplets_of(architecture) == seq![
            architecture + "-linux-gnu"@,
        ],
        architecture == "ppc64"@ || architecture == "ppc64le"@ ==> triplets_of(architecture)
            == seq!["powerpc"@ + architecture.skip(3) + "-linux-gnu"@],
        architecture == "i686"@ ==> triplets_of(architecture).contains(
            architecture + "-linux-gnu"@,
        ) && triplets_of(architecture).contains("i386"@ + "-linux-gnu"@),
        architecture == "arm"@ ==> triplets_of(architecture) == seq![
            "arm"@ + "-linux-gnu"@ + "eabi"@,
        ],
        architecture == "armv7h"@ ==> triplets_of(architecture) == seq![
            "arm"@ + "-linux-gnu"@ + "eabihf"@,
        ],
        architecture == "any"@ ==> triplets_of(architecture).len() == 0,
{
    reveal_strlit("x86_64");
    reveal_strlit("i686");
    reveal_strlit("i386");
    reveal_strlit("aarch64");
    reveal_strlit("armv7h");
    reveal_strlit("arm");
    reveal_strlit("any");
    reveal_strlit("ppc64le");
    reveal_strlit("ppc64");
    reveal_strlit("riscv64");
    reveal_strlit("s390x");
    reveal_strlit("powerpc");
    reveal_strlit("eabi");
    reveal_strlit("eabihf");
    reveal_strlit("-linux-gnu");
    reveal_strlit("x86_64-linux-gnu");
    reveal_strlit("i386-linux-gnu");
    reveal_strlit("i686-linux-gnu");
    reveal_strlit("aarch64-linux-gnu");
    reveal_strlit("arm-linux-gnueabihf");
    reveal_strlit("arm-linux-gnueabi");
    reveal_strlit("powerpc64le-linux-gnu");
    reveal_strlit("powerpc64-linux-gnu");
    reveal_strlit("riscv64-linux-gnu");
    reveal_strlit("s390x-linux-gnu");
    assert("x86_64"@ + "-linux-gnu"@ =~= "x86_64-linux-gnu"@);
    assert("aarch64"@ + "-linux-gnu"@ =~= "aarch64-linux-gnu"@);
    assert("riscv64"@ + "-linux-gnu"@ =~= "riscv64-linux-gnu"@);
    assert("s390x"@ + "-linux-gnu"@ =~= "s390x-linux-gnu"@);
    assert("i686"@ + "-linux-gnu"@ =~= "i686-linux-gnu"@);
    assert("i386"@ + "-linux-gnu"@ =~= "i386-linux-gnu"@);
    assert("powerpc"@ + "ppc64"@.skip(3) + "-linux-gnu"@ =~= "powerpc64-linux-gnu"@);
    assert("powerpc"@ + "ppc64le"@.skip(3) + "-linux-gnu"@ =~= "powerpc64le-linux-gnu"@);
    assert("arm"@ + "-linux-gnu"@ + "eabi"@ =~= "arm-linux-gnueabi"@);
    assert("arm"@ + "-linux-gnu"@ + "eabihf"@ =~= "arm-linux-gnueabihf"@);
    assert("riscv64"@[0] == 'r' && "aarch64"@[0] == 'a' && "ppc64le"@[0] == 'p');
    assert("s390x"@[0] == 's' && "ppc64"@[0] == 'p');
    assert("armv7h"@[0] == 'a' && "x86_64"@[0] == 'x');
    assert("any"@[1] == 'n' && "arm"@[1] == 'r');
    if architecture == "i686"@ {
        assert(triplets_of(architecture)[0] == "i386-linux-gnu"@);
        assert(triplets_of(architecture)[1] == "i686-linux-gnu"@);
    }
}

// ---------------------------------------------------------------------------
// Merging
// ---------------------------------------------------------------------------
/// Whatever stands at the source of a merge is dealt with: it is moved where the
/// destination is free, entered where both are directories, and compared where
/// both are files or both are links.  Only what is not there is passed over, and
/// a copy that was found equal is removed.
pub proof fn nothing_is_left_behind(
    source: Seq<u8>,
    destination: Seq<u8>,
    one: Option<EntryKind>,
    two: Option<EntryKind>,
)
    ensures
        ({
            let found = following_steps(
                MergeModel::Inspect(source, destination),
                ReplyModel::Found(one, two),
            );
            &&& one is None ==> found == Ok::<Seq<MergeModel>, Seq<char>>(seq![])
            &&& one is Some && two is None ==> found == Ok::<Seq<MergeModel>, Seq<char>>(
                seq![MergeModel::Move(source, destination)],
            )
            &&& one == Some(EntryKind::Directory) && two == one ==> found == Ok::<
                Seq<MergeModel>,
                Seq<char>,
            >(seq![MergeModel::List(source, destination)])
            &&& one == Some(EntryKind::File) && two == one ==> found == Ok::<
                Seq<MergeModel>,
                Seq<char>,
            >(seq![MergeModel::CompareFiles(source, destination)])
            &&& one == Some(EntryKind::Link) && two == one ==> found == Ok::<
                Seq<MergeModel>,
                Seq<char>,
            >(seq![MergeModel::CompareLinks(source, destination)])
        }),
        following_steps(
            MergeModel::CompareFiles(source, destination),
            ReplyModel::Equal(true),
        ) == Ok::<Seq<MergeModel>, Seq<char>>(seq![MergeModel::RemoveFile(source)]),
        following_steps(
            MergeModel::CompareLinks(source, destination),
            ReplyModel::Equal(true),
        ) == Ok::<Seq<MergeModel>, Seq<char>>(seq![MergeModel::RemoveFile(source)]),
{
}

/// Every entry of a directory is merged: for each name there is a step from that
/// name in the source to the same name in the destination.
pub proof fn every_entry_is_merged(
    source: Seq<u8>,
    destination: Seq<u8>,
    names: Seq<Seq<u8>>,
    index: int,
)
    requires
        0 <= index < names.len(),
    ensures
        following_steps(
            MergeModel::List(source, destination),
            ReplyModel::Names(names),
        ) matches Ok(more) && more.contains(
            MergeModel::Inspect(
                joined_path(source, names[index]),
                joined_path(destination, names[index]),
            ),
        ),
{
    broadcast use vstd::seq_lib::group_to_multiset_ensures;

    lemma_byte_sorted(names);
    directories_are_emptied_first(source, destination, names);
    let sorted = byte_sorted(names);
    assert(names.contains(names[index]));
    assert(names.to_multiset().count(names[index]) > 0);
    assert(sorted.contains(names[index]));
    let at = choose|at: int| 0 <= at < sorted.len() && sorted[at] == names[index];
    let more = following_steps(
        MergeModel::List(source, destination),
        ReplyModel::Names(names),
    )->Ok_0;
    let place = more.len() - 1 - at;
    assert(more[place] == MergeModel::Inspect(
        joined_path(source, names[index]),
        joined_path(destination, names[index]),
    ));
}

// ---------------------------------------------------------------------------
// Configuration files
// ---------------------------------------------------------------------------
/// White space around a line, and a slash in front of its path, do not matter.
pub proof fn configuration_lines_are_cleaned(
    line: Seq<char>,
    value: Seq<char>,
    architecture: Seq<char>,
)
    ensures
        trim(line) == trim(value) ==> configuration_path(line, architecture) == configuration_path(
            value,
            architecture,
        ),
        trim(line).len() == 0 <==> configuration_path(line, architecture) == Ok::<
            Option<Seq<u8>>,
            Seq<char>,
        >(None),
        trim(line) == "/"@ + trim(value) && trim(value).len() > 0 && trim(value)[0] != '/'
            ==> configuration_path(line, architecture) == configuration_path(value, architecture),
        trim(line).len() > 0 && trim(line)[0] != '/' ==> match normalized_path(
            encode_utf8(trim(line)),
        ) {
            Ok(normal) => configuration_path(line, architecture) == Ok::<
                Option<Seq<u8>>,
                Seq<char>,
            >(Some(rewritten_path(normal, architecture))),
            Err(_) => configuration_path(line, architecture) is Err,
        },
{
    reveal_strlit("/");
    let long = trim(line);
    let short = trim(value);
    if long == "/"@ + short && short.len() > 0 && short[0] != '/' {
        assert(long.take(1) =~= "/"@);
        assert(long.skip(1) =~= short);
    }
    if short.len() > 0 && short[0] != '/' {
        lemma_no_prefix(short, "/"@, 0);
    }
    if long.len() > 0 && long[0] != '/' {
        lemma_no_prefix(long, "/"@, 0);
    }
}

/// Every line that is not blank names one path, and the paths stand in the order
/// of their lines.
pub proof fn every_line_names_a_path(all_lines: Seq<Seq<char>>, architecture: Seq<char>)
    ensures
        configuration_paths_of(all_lines, architecture) matches Ok(paths) ==> {
            let named = all_lines.filter(|line: Seq<char>| trim(line).len() > 0);
            &&& paths.len() == named.len()
            &&& forall|index: int|
                0 <= index < paths.len() ==> configuration_path(named[index], architecture) == Ok::<
                    Option<Seq<u8>>,
                    Seq<char>,
                >(Some(#[trigger] paths[index]))
        },
        configuration_paths_of(all_lines, architecture) is Ok <==> forall|index: int|
            0 <= index < all_lines.len() ==> configuration_path(
                #[trigger] all_lines[index],
                architecture,
            ) is Ok,
    decreases all_lines.len(),
{
    reveal(Seq::filter);
    if all_lines.len() > 0 {
        let fewer = all_lines.drop_last();
        every_line_names_a_path(fewer, architecture);
        configuration_lines_are_cleaned(all_lines.last(), all_lines.last(), architecture);
        if configuration_paths_of(all_lines, architecture) is Ok {
            assert forall|index: int| 0 <= index < all_lines.len() implies configuration_path(
                #[trigger] all_lines[index],
                architecture,
            ) is Ok by {
                if index < fewer.len() {
                    assert(fewer[index] == all_lines[index]);
                }
            }
        } else if configuration_paths_of(fewer, architecture) is Ok {
            assert(configuration_path(all_lines[all_lines.len() - 1], architecture) is Err);
        } else {
            let index = choose|index: int|
                0 <= index < fewer.len() && configuration_path(
                    #[trigger] fewer[index],
                    architecture,
                ) is Err;
            assert(fewer[index] == all_lines[index]);
        }
    }
}

/// Each configuration file is kept or warned of: one that is in the payload
/// becomes a backup, and a warning names each other one.
pub proof fn configuration_files_are_kept_or_warned_of(
    paths: Seq<Seq<u8>>,
    present: Seq<bool>,
    index: int,
)
    requires
        paths.len() <= present.len(),
    ensures
        present_files(paths, present).len() + absent_warnings(paths, present).len() == paths.len(),
        0 <= index < paths.len() && present[index] ==> present_files(paths, present).contains(
            lossy_text(paths[index]),
        ),
        0 <= index < paths.len() && !present[index] ==> absent_warnings(paths, present).contains(
            "Configuration file '"@ + lossy_text(paths[index])
                + "' is not in the payload and was not added as a backup."@,
        ),
        0 <= index < present_files(paths, present).len() ==> exists|place: int|
            0 <= place < paths.len() && present[place] && lossy_text(#[trigger] paths[place])
                == present_files(paths, present)[index],
    decreases paths.len(),
{
    if paths.len() > 0 {
        let fewer = paths.drop_last();
        configuration_files_are_kept_or_warned_of(fewer, present, index);
        let kept = present_files(fewer, present);
        let warned = absent_warnings(fewer, present);
        let all = present_files(paths, present);
        let told = absent_warnings(paths, present);
        let last = paths.len() - 1;
        if 0 <= index < last {
            assert(fewer[index] == paths[index]);
            if present[index] {
                let at = choose|at: int|
                    0 <= at < kept.len() && kept[at] == lossy_text(paths[index]);
                assert(all[at] == lossy_text(paths[index]));
            } else {
                let text = "Configuration file '"@ + lossy_text(paths[index])
                    + "' is not in the payload and was not added as a backup."@;
                let at = choose|at: int| 0 <= at < warned.len() && warned[at] == text;
                assert(told[at] == text);
            }
        } else if index == last {
            if present[index] {
                assert(all[kept.len() as int] == lossy_text(paths[index]));
            } else {
                let text = "Configuration file '"@ + lossy_text(paths[index])
                    + "' is not in the payload and was not added as a backup."@;
                assert(told[warned.len() as int] == text);
            }
        }
        if 0 <= index < all.len() {
            if index < kept.len() {
                let place = choose|place: int|
                    0 <= place < fewer.len() && present[place] && lossy_text(
                        #[trigger] fewer[place],
                    ) == kept[index];
                assert(paths[place] == fewer[place]);
                assert(all[index] == kept[index]);
            } else {
                assert(lossy_text(paths[last]) == all[index]);
            }
        }
    }
}

// ---------------------------------------------------------------------------
// Size
// ---------------------------------------------------------------------------
proof fn lemma_added_size(entries: Seq<SizedEntry>, entry: SizedEntry, index: int)
    requires
        0 <= index < entries.len(),
    ensures
        added_size(entries.push(entry), index) == added_size(entries, index),
{
    let longer = entries.push(entry);
    assert(was_counted(longer, index) == was_counted(entries, index)) by {
        if was_counted(longer, index) {
            let earlier = choose|earlier: int|
                0 <= earlier < index && is_payload_file(#[trigger] longer[earlier])
                    && longer[earlier].links > 1 && same_file(longer[earlier], longer[index]);
            assert(entries[earlier] == longer[earlier]);
            assert(is_payload_file(entries[earlier]));
        }
        if was_counted(entries, index) {
            let earlier = choose|earlier: int|
                0 <= earlier < index && is_payload_file(#[trigger] entries[earlier])
                    && entries[earlier].links > 1 && same_file(entries[earlier], entries[index]);
            assert(entries[earlier] == longer[earlier]);
            assert(is_payload_file(longer[earlier]));
        }
    }
}

proof fn lemma_size_of_first(entries: Seq<SizedEntry>, entry: SizedEntry, count: int)
    requires
        0 <= count <= entries.len(),
    ensures
        size_of_first(entries.push(entry), count) == size_of_first(entries, count),
    decreases count,
{
    if count > 0 {
        lemma_size_of_first(entries, entry, count - 1);
        lemma_added_size(entries, entry, count - 1);
    }
}

/// The path is that of a file which describes the package.
pub open spec fn describes_package(path: Seq<u8>) -> bool {
    path == encode_utf8(".PKGINFO"@) || path == encode_utf8(".BUILDINFO"@) || path == encode_utf8(
        ".MTREE"@,
    ) || path == encode_utf8(".INSTALL"@)
}

/// One more file of the payload adds its length to the installed size, unless an
/// earlier hard link to it did; a directory, a link and a file that describes the
/// package add nothing.
pub proof fn each_file_adds_its_length(entries: Seq<SizedEntry>, entry: SizedEntry)
    ensures
        ({
            let before = size_of_first(entries, entries.len() as int);
            let after = size_of_first(entries.push(entry), entries.len() as int + 1);
            &&& !entry.is_file || describes_package(entry.path@) ==> after == before
            &&& entry.is_file && !describes_package(entry.path@) && entry.links <= 1 ==> after
                == before + entry.length
            &&& entry.is_file && !describes_package(entry.path@) && (forall|index: int|
                0 <= index < entries.len() ==> (#[trigger] entries[index]).device != entry.device
                    || entries[index].inode != entry.inode) ==> after == before + entry.length
            &&& after == before || after == before + entry.length
        }),
        installed_size_of_entries(seq![]) == Ok::<u64, Seq<char>>(0u64),
        installed_size_of_entries(entries) matches Ok(size) ==> size == size_of_first(
            entries,
            entries.len() as int,
        ),
        installed_size_of_entries(entries) is Ok <==> size_of_first(entries, entries.len() as int)
            <= 0xffff_ffff_ffff_ffff,
{
    let longer = entries.push(entry);
    let last = entries.len() as int;
    lemma_size_of_first(entries, entry, last);
    assert(longer[last] == entry);
    if was_counted(longer, last) {
        let earlier = choose|earlier: int|
            0 <= earlier < last && is_payload_file(#[trigger] longer[earlier])
                && longer[earlier].links > 1 && same_file(longer[earlier], longer[last]);
        assert(entries[earlier] == longer[earlier]);
    }
}

// ---------------------------------------------------------------------------
// Links
// ---------------------------------------------------------------------------
/// A link to an absolute path points to the place that the path is rewritten to,
/// and stays as it is where that is the same place.
pub proof fn links_follow_the_layout(
    link: Seq<u8>,
    directory: Seq<u8>,
    names: Seq<Seq<u8>>,
    architecture: Seq<char>,
)
    requires
        are_plain_names(names),
        names.len() > 0,
    ensures
        ({
            let path = names_path(names);
            let target = seq![SEPARATOR] + path;
            let place = joined_path(seq![SEPARATOR], rewritten_path(path, architecture));
            let change = link_change(link, directory, target, architecture);
            &&& rewritten_path(path, architecture) == path ==> change == Ok::<
                Option<Seq<u8>>,
                Seq<char>,
            >(None)
            &&& path_components(place) != path_components(target) ==> change == Ok::<
                Option<Seq<u8>>,
                Seq<char>,
            >(Some(place))
        }),
{
    let path = names_path(names);
    let target = seq![SEPARATOR] + path;
    plain_paths_are_normal(names);
    assert(target.skip(1) =~= path);
    reveal_with_fuel(without_leading, 2);
    assert(without_leading(target) == path);
    assert(below_root(target) == path);
    reveal_strlit("/");
    vstd::utf8::is_ascii_chars_encode_utf8("/"@);
    assert(encode_utf8("/"@) =~= seq![SEPARATOR]);
    if rewritten_path(path, architecture) == path {
        assert(joined_path(seq![SEPARATOR], path) =~= target);
    }
}

/// A relative link keeps its target, and is refused exactly if the target leads
/// out of the payload.  An absolute link gets an absolute target.
pub proof fn links_stay_in_the_payload(
    link: Seq<u8>,
    directory: Seq<u8>,
    target: Seq<u8>,
    architecture: Seq<char>,
)
    ensures
        !is_absolute_path(target) ==> {
            let change = link_change(link, directory, target, architecture);
            &&& change is Err <==> normalized_path(joined_path(directory, target)) is Err
            &&& change matches Ok(replacement) ==> replacement is None
        },
        is_absolute_path(target) ==> (link_change(link, directory, target, architecture) matches Ok(
            Some(place),
        ) ==> is_absolute_path(place) && path_components(place) != path_components(target)),
{
    reveal_strlit("/");
    vstd::utf8::is_ascii_chars_encode_utf8("/"@);
    assert(encode_utf8("/"@) =~= seq![SEPARATOR]);
}

// ---------------------------------------------------------------------------
// Steps and warnings
// ---------------------------------------------------------------------------
/// An answer to one step of a merge leaves all the other steps to be done.
pub proof fn other_steps_are_kept(steps: Seq<MergeModel>, reply: ReplyModel)
    requires
        steps.len() > 0,
    ensures
        steps_after(steps, reply) matches Ok(after) ==> {
            &&& after.len() >= steps.len() - 1
            &&& forall|index: int| 0 <= index < steps.len() - 1 ==> after[index] == steps[index]
        },
{
}

/// Every change of a payload is told, and every configuration file that is not
/// there.
pub proof fn changes_are_warned_of(changes: PayloadChanges)
    ensures
        ({
            let told = change_warnings(changes);
            let absent = absent_warnings(
                byte_lists(changes.configuration_files@),
                changes.configuration_present@,
            );
            let lintian = "Removed Debian-only Lintian package metadata."@;
            let command = "Added the OpenCode command link as an owned package file."@;
            &&& changes.lintian_removed ==> told.contains(lintian)
            &&& changes.command_added ==> told.contains(command)
            &&& forall|index: int|
                0 <= index < absent.len() ==> told.contains(#[trigger] absent[index])
            &&& !changes.lintian_removed && !changes.command_added ==> told == absent
            &&& told.len() <= absent.len() + 2
        }),
{
    let told = change_warnings(changes);
    let absent = absent_warnings(
        byte_lists(changes.configuration_files@),
        changes.configuration_present@,
    );
    let before = told.len() - absent.len();
    if changes.lintian_removed {
        assert(told[0] == LINTIAN_WARNING@);
    }
    if changes.command_added {
        assert(told[before - 1] == OPENCODE_WARNING@);
    }
    assert forall|index: int| 0 <= index < absent.len() implies told.contains(
        #[trigger] absent[index],
    ) by {
        assert(told[before + index] == absent[index]);
    }
    if !changes.lintian_removed && !changes.command_added {
        assert(told =~= absent);
    }
}

} // verus!
