//! The check and the change of paths and symbolic links.

use vstd::prelude::*;
use vstd::slice::slice_subrange;
use vstd::utf8::encode_utf8;

use crate::bytes::copy;
use crate::encoding::{decode_lossy, lossy_text};
use crate::error::{AppError, Outcome, Result};
use crate::paths::{
    display, is_absolute, is_absolute_path, join_path, joined_path, normalize_relative,
    normalized_path, path_components, same_path, SEPARATOR,
};
use crate::text::{chars, equal, has_prefix, string, strip_prefix};
use crate::transform::layout::lib32_place;

verus! {

// ---------------------------------------------------------------------------
// Rewriting
// ---------------------------------------------------------------------------
/// The starts of paths that move, and where they move to.
pub open spec fn prefix_moves() -> Seq<(Seq<char>, Seq<char>)> {
    seq![
        ("usr/sbin/"@, "usr/bin/"@),
        ("usr/games/"@, "usr/bin/"@),
        ("usr/lib64/"@, "usr/lib/"@),
        ("bin/"@, "usr/bin/"@),
        ("sbin/"@, "usr/bin/"@),
        ("lib64/"@, "usr/lib/"@),
        ("lib/"@, "usr/lib/"@),
    ]
}

/// A text with the first matching start moved.
pub open spec fn moved_text(text: Seq<char>, moves: Seq<(Seq<char>, Seq<char>)>) -> Option<Seq<u8>>
    decreases moves.len(),
{
    if moves.len() == 0 {
        None
    } else if has_prefix(text, moves[0].0) {
        Some(
            joined_path(
                encode_utf8(moves[0].1),
                encode_utf8(text.skip(moves[0].0.len() as int)),
            ),
        )
    } else {
        moved_text(text, moves.drop_first())
    }
}

/// A relative path in the layout that Arch uses.
pub open spec fn rewritten_path(path: Seq<u8>, architecture: Seq<char>) -> Seq<u8> {
    let text = lossy_text(path);
    match moved_text(
        text,
        prefix_moves().push(("lib32/"@, lib32_place(architecture))),
    ) {
        Some(moved) => moved,
        None => path,
    }
}

fn move_prefix(text: &[char], start: &str, destination: &str) -> (result: Option<Vec<u8>>)
    ensures
        match result {
            Some(path) => has_prefix(text@, start@) && path@ == joined_path(
                encode_utf8(destination@),
                encode_utf8(text@.skip(start@.len() as int)),
            ),
            None => !has_prefix(text@, start@),
        },
{
    match strip_prefix(text, start) {
        Some(rest) => {
            let rest = string(rest);
            Some(join_path(destination.as_bytes(), rest.as_str().as_bytes()))
        },
        None => None,
    }
}

/// Rewrite a relative path to the layout that Arch uses.
pub fn rewrite_relative_path(path: &[u8], architecture: &str) -> (result: Vec<u8>)
    ensures
        result@ == rewritten_path(path@, architecture@),
{
    let lossy = decode_lossy(path);
    let characters = chars(lossy.as_str());
    let text = characters.as_slice();
    let ghost moves = prefix_moves().push(("lib32/"@, lib32_place(architecture@)));
    let lib32 = if equal(architecture, "x86_64") {
        "usr/lib32"
    } else {
        "usr/lib"
    };
    proof {
        reveal_with_fuel(moved_text, 9);
        assert(moves.drop_first().drop_first() == moves.skip(2));
        assert(moves.skip(2).drop_first() == moves.skip(3));
        assert(moves.skip(3).drop_first() == moves.skip(4));
        assert(moves.skip(4).drop_first() == moves.skip(5));
        assert(moves.skip(5).drop_first() == moves.skip(6));
        assert(moves.skip(6).drop_first() == moves.skip(7));
        assert(moves.skip(7).drop_first().len() == 0);
    }
    if let Some(moved) = move_prefix(text, "usr/sbin/", "usr/bin/") {
        return moved;
    }
    if let Some(moved) = move_prefix(text, "usr/games/", "usr/bin/") {
        return moved;
    }
    if let Some(moved) = move_prefix(text, "usr/lib64/", "usr/lib/") {
        return moved;
    }
    if let Some(moved) = move_prefix(text, "bin/", "usr/bin/") {
        return moved;
    }
    if let Some(moved) = move_prefix(text, "sbin/", "usr/bin/") {
        return moved;
    }
    if let Some(moved) = move_prefix(text, "lib64/", "usr/lib/") {
        return moved;
    }
    if let Some(moved) = move_prefix(text, "lib/", "usr/lib/") {
        return moved;
    }
    if let Some(moved) = move_prefix(text, "lib32/", lib32) {
        return moved;
    }
    copy(path)
}

// ---------------------------------------------------------------------------
// Links
// ---------------------------------------------------------------------------
/// A path without separators and `.` components at its start.
pub open spec fn without_leading(path: Seq<u8>) -> Seq<u8>
    decreases path.len(),
{
    if path.len() > 0 && path[0] == SEPARATOR {
        without_leading(path.skip(1))
    } else if path.len() > 0 && path[0] == DOT && (path.len() == 1 || path[1] == SEPARATOR) {
        without_leading(path.skip(1))
    } else {
        path
    }
}

/// A path without separators and `.` components at its end.
pub open spec fn without_trailing(path: Seq<u8>) -> Seq<u8>
    decreases path.len(),
{
    if path.len() > 0 && path.last() == SEPARATOR {
        without_trailing(path.drop_last())
    } else if path.len() > 1 && path.last() == DOT && path[path.len() - 2] == SEPARATOR {
        without_trailing(path.drop_last())
    } else {
        path
    }
}

/// The byte `.`.
pub const DOT: u8 = 0x2e;

/// An absolute path relative to the root.
pub open spec fn below_root(path: Seq<u8>) -> Seq<u8> {
    without_trailing(without_leading(path))
}

fn relative_to_root<'a>(path: &'a [u8]) -> (result: &'a [u8])
    ensures
        result@ == below_root(path@),
{
    let mut rest = path;
    while rest.len() > 0 && (rest[0] == SEPARATOR || (rest[0] == DOT && (rest.len() == 1 || rest[1]
        == SEPARATOR)))
        invariant
            without_leading(rest@) == without_leading(path@),
        decreases rest@.len(),
    {
        let next = slice_subrange(rest, 1, rest.len());
        assert(next@ == rest@.skip(1));
        rest = next;
    }
    let ghost start = rest@;
    while rest.len() > 0 && (rest[rest.len() - 1] == SEPARATOR || (rest.len() > 1 && rest[rest.len()
        - 1] == DOT && rest[rest.len() - 2] == SEPARATOR))
        invariant
            without_trailing(rest@) == without_trailing(start),
        decreases rest@.len(),
    {
        let next = slice_subrange(rest, 0, rest.len() - 1);
        assert(next@ == rest@.drop_last());
        rest = next;
    }
    rest
}

/// The absolute target of a link in the layout that Arch uses.
pub open spec fn rewritten_target(target: Seq<u8>, architecture: Seq<char>) -> Outcome<Seq<u8>> {
    match normalized_path(below_root(target)) {
        Err(message) => Err(message),
        Ok(normal) => Ok(
            joined_path(encode_utf8("/"@), rewritten_path(normal, architecture)),
        ),
    }
}

/// Rewrite the absolute target of a link.
pub fn rewrite_absolute_target(target: &[u8], architecture: &str) -> (result: Result<Vec<u8>>)
    requires
        is_absolute_path(target@),
    ensures
        match result {
            Ok(rewritten) => rewritten_target(target@, architecture@) == Ok::<
                Seq<u8>,
                Seq<char>,
            >(rewritten@),
            Err(error) => rewritten_target(target@, architecture@) == Err::<Seq<u8>, Seq<char>>(
                error@,
            ),
        },
{
    let normal = normalize_relative(relative_to_root(target))?;
    let rewritten = rewrite_relative_path(normal.as_slice(), architecture);
    Ok(join_path("/".as_bytes(), rewritten.as_slice()))
}

/// The new target of a link, if it gets one, or the message that refuses it.
/// The link stands in a directory below the payload root.
pub open spec fn link_change(
    link: Seq<u8>,
    directory: Seq<u8>,
    target: Seq<u8>,
    architecture: Seq<char>,
) -> Outcome<Option<Seq<u8>>> {
    if is_absolute_path(target) {
        match rewritten_target(target, architecture) {
            Err(message) => Err(message),
            Ok(rewritten) => Ok(
                if path_components(rewritten) == path_components(target) {
                    None
                } else {
                    Some(rewritten)
                },
            ),
        }
    } else {
        match normalized_path(joined_path(directory, target)) {
            Err(message) => Err("Unsafe link "@ + lossy_text(link) + ": "@ + message),
            Ok(_) => Ok(None),
        }
    }
}

/// Check a symbolic link of the payload: `link` is its whole path for
/// messages, `directory` its directory below the payload root.  The result is
/// the target that it must get instead, if any.
pub fn rewrite_link(link: &[u8], directory: &[u8], target: &[u8], architecture: &str) -> (result:
    Result<Option<Vec<u8>>>)
    ensures
        match result {
            Ok(change) => link_change(link@, directory@, target@, architecture@) == Ok::<
                Option<Seq<u8>>,
                Seq<char>,
            >(crate::bytes::optional_bytes(change)),
            Err(error) => link_change(link@, directory@, target@, architecture@) == Err::<
                Option<Seq<u8>>,
                Seq<char>,
            >(error@),
        },
{
    if is_absolute(target) {
        let rewritten = rewrite_absolute_target(target, architecture)?;
        if same_path(rewritten.as_slice(), target) {
            return Ok(None);
        }
        return Ok(Some(rewritten));
    }
    let whole = join_path(directory, target);
    match normalize_relative(whole.as_slice()) {
        Ok(_) => Ok(None),
        Err(error) => Err(
            AppError::new(
                String::from_str("Unsafe link ").concat(display(link).as_str()).concat(": ").concat(
                    error.message(),
                ),
            ),
        ),
    }
}

} // verus!
