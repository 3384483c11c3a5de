//! The configuration files of a package.

use vstd::prelude::*;
use vstd::utf8::encode_utf8;

use crate::bytes::byte_lists;
use crate::collection::TextSet;
use crate::encoding::{decode_lossy, lossy_text};
use crate::error::{Outcome, Result};
use crate::lists::{set_of, sorted_members, sorted_rest};
use crate::paths::{normalize_relative, normalized_path};
use crate::pieces::{lines, split_lines, texts, trim, trimmed};
use crate::text::{chars, has_prefix, string, strip_prefix};
use crate::transform::links::{rewrite_relative_path, rewritten_path};

verus! {

/// The path that a line of `conffiles` names, `None` for a blank line.
pub open spec fn configuration_path(line: Seq<char>, architecture: Seq<char>) -> Outcome<
    Option<Seq<u8>>,
> {
    let value = trim(line);
    if value.len() == 0 {
        Ok(None)
    } else {
        let relative = if has_prefix(value, "/"@) {
            value.skip(1)
        } else {
            value
        };
        match normalized_path(encode_utf8(relative)) {
            Err(message) => Err(message),
            Ok(normal) => Ok(Some(rewritten_path(normal, architecture))),
        }
    }
}

/// The paths that lines of `conffiles` name.
pub open spec fn configuration_paths_of(
    all_lines: Seq<Seq<char>>,
    architecture: Seq<char>,
) -> Outcome<Seq<Seq<u8>>>
    decreases all_lines.len(),
{
    if all_lines.len() == 0 {
        Ok(seq![])
    } else {
        match configuration_paths_of(all_lines.drop_last(), architecture) {
            Err(message) => Err(message),
            Ok(paths) => match configuration_path(all_lines.last(), architecture) {
                Err(message) => Err(message),
                Ok(None) => Ok(paths),
                Ok(Some(path)) => Ok(paths.push(path)),
            },
        }
    }
}

proof fn lemma_configuration_prefix(
    all_lines: Seq<Seq<char>>,
    architecture: Seq<char>,
    length: int,
)
    requires
        0 <= length <= all_lines.len(),
        configuration_paths_of(all_lines.take(length), architecture) is Err,
    ensures
        configuration_paths_of(all_lines, architecture) == configuration_paths_of(
            all_lines.take(length),
            architecture,
        ),
    decreases all_lines.len(),
{
    if length < all_lines.len() {
        assert(all_lines.drop_last().take(length) == all_lines.take(length));
        lemma_configuration_prefix(all_lines.drop_last(), architecture, length);
    } else {
        assert(all_lines.take(length) == all_lines);
    }
}

/// List the paths, in the layout that Arch uses, that `conffiles` names.
pub fn configuration_paths(content: &str, architecture: &str) -> (result: Result<Vec<Vec<u8>>>)
    ensures
        match result {
            Ok(paths) => configuration_paths_of(lines(content@), architecture@) == Ok::<
                Seq<Seq<u8>>,
                Seq<char>,
            >(byte_lists(paths@)),
            Err(error) => configuration_paths_of(lines(content@), architecture@) == Err::<
                Seq<Seq<u8>>,
                Seq<char>,
            >(error@),
        },
{
    let characters = chars(content);
    let all_lines = split_lines(characters.as_slice());
    let ghost all = texts(all_lines@);
    let mut paths: Vec<Vec<u8>> = Vec::new();
    assert(byte_lists(paths@) =~= Seq::<Seq<u8>>::empty());
    assert("/"@.len() == 1) by {
        reveal_strlit("/");
    }
    for index in 0..all_lines.len()
        invariant
            "/"@.len() == 1,
            all == texts(all_lines@),
            all == lines(content@),
            configuration_paths_of(all.take(index as int), architecture@) == Ok::<
                Seq<Seq<u8>>,
                Seq<char>,
            >(byte_lists(paths@)),
    {
        let line = all_lines[index];
        let ghost before = byte_lists(paths@);
        proof {
            assert(all.take(index + 1).drop_last() == all.take(index as int));
            assert(all.take(index + 1).last() == line@);
            if configuration_path(line@, architecture@) is Err {
                lemma_configuration_prefix(all, architecture@, index + 1);
            }
        }
        let value = trimmed(line);
        if value.len() > 0 {
            let relative = match strip_prefix(value, "/") {
                Some(rest) => rest,
                None => value,
            };
            let text = string(relative);
            let normal = normalize_relative(text.as_str().as_bytes())?;
            let path = rewrite_relative_path(normal.as_slice(), architecture);
            paths.push(path);
            assert(byte_lists(paths@) =~= before.push(path@));
        }
    }
    assert(all.take(all.len() as int) == all);
    Ok(paths)
}

/// The configuration files among the first paths that are in the payload.
pub open spec fn present_files(paths: Seq<Seq<u8>>, present: Seq<bool>) -> Seq<Seq<char>>
    decreases paths.len(),
{
    if paths.len() == 0 {
        seq![]
    } else {
        let before = present_files(paths.drop_last(), present);
        if present[paths.len() - 1] {
            before.push(lossy_text(paths.last()))
        } else {
            before
        }
    }
}

/// The warnings about the first paths that are not in the payload.
pub open spec fn absent_warnings(paths: Seq<Seq<u8>>, present: Seq<bool>) -> Seq<Seq<char>>
    decreases paths.len(),
{
    if paths.len() == 0 {
        seq![]
    } else {
        let before = absent_warnings(paths.drop_last(), present);
        if present[paths.len() - 1] {
            before
        } else {
            before.push(
                "Configuration file '"@ + lossy_text(paths.last())
                    + "' is not in the payload and was not added as a backup."@,
            )
        }
    }
}

/// Select the configuration files that are in the payload, sorted and without
/// duplicates, and warn about the others.
pub fn read_backup_paths(paths: &Vec<Vec<u8>>, present: &Vec<bool>) -> (result: (
    Vec<String>,
    Vec<String>,
))
    requires
        paths@.len() == present@.len(),
    ensures
        sorted_members(
            result.0.deep_view(),
            set_of(present_files(byte_lists(paths@), present@)),
        ),
        result.1.deep_view() == absent_warnings(byte_lists(paths@), present@),
{
    let ghost all = byte_lists(paths@);
    let mut backups: Vec<String> = Vec::new();
    let mut warnings: Vec<String> = Vec::new();
    assert(backups.deep_view() =~= Seq::<Seq<char>>::empty());
    assert(warnings.deep_view() =~= Seq::<Seq<char>>::empty());
    for index in 0..paths.len()
        invariant
            paths@.len() == present@.len(),
            all == byte_lists(paths@),
            backups.deep_view() == present_files(all.take(index as int), present@),
            warnings.deep_view() == absent_warnings(all.take(index as int), present@),
    {
        let ghost files = backups.deep_view();
        let ghost texts = warnings.deep_view();
        proof {
            assert(all.take(index + 1).drop_last() == all.take(index as int));
            assert(all.take(index + 1).last() == paths@[index as int]@);
        }
        let name = decode_lossy(paths[index].as_slice());
        if present[index] {
            backups.push(name);
            assert(backups.deep_view() =~= files.push(name@));
        } else {
            let text = String::from_str("Configuration file '").concat(name.as_str()).concat(
                "' is not in the payload and was not added as a backup.",
            );
            warnings.push(text);
            assert(warnings.deep_view() =~= texts.push(text@));
        }
    }
    assert(all.take(all.len() as int) == all);
    let nothing = TextSet::new();
    let sorted = sorted_rest(&backups, &nothing, &nothing);
    proof {
        let files = set_of(backups.deep_view());
        assert(files.difference(Set::empty()).difference(Set::empty()) =~= files);
    }
    (sorted, warnings)
}

} // verus!
