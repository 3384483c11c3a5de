//! The files and directories that archive tools read and write.

use vstd::prelude::*;

use crate::archive::files::{encoded, push_arguments};
use crate::attempts::{after_attempt, next_attempt, CreationReply, NextAttempt};
use crate::bytes::{byte_lists, copy};
use crate::error::{outcome, AppError, Result};
use crate::lists::str_views;
use crate::number::{decimal, decimal_text, hex_digits, hex_has_only_hex_digits, hex_text};
use crate::text::{has_suffix, is_hex_digit};
use crate::workspace::{WorkspaceIdentity, MAX_ATTEMPTS};

verus! {

/// Require that the control file of a Debian package is a regular file.
pub fn extract_control(control: &str, is_link: bool, is_file: bool) -> (result: Result<()>)
    ensures
        outcome(result) == if is_link || !is_file {
            Err::<(), Seq<char>>("the Debian control entry is not a regular file: "@ + control@)
        } else {
            Ok(())
        },
{
    if is_link || !is_file {
        return Err(
            AppError::new(
                String::from_str("the Debian control entry is not a regular file: ").concat(
                    control,
                ),
            ),
        );
    }
    Ok(())
}

/// The arguments of `bsdtar` that extract an archive into a directory.
pub open spec fn extraction(member: Seq<u8>, destination: Seq<u8>) -> Seq<Seq<u8>> {
    encoded(seq!["-xpf"@]).push(member) + encoded(
        seq!["--no-same-owner"@, "--no-fflags"@, "-C"@],
    ).push(destination)
}

/// Give the arguments of `bsdtar` that extract an archive into a directory:
/// modes are kept, owners and file flags are not.
pub fn extract_payload(member: &[u8], destination: &[u8]) -> (result: Vec<Vec<u8>>)
    ensures
        byte_lists(result@) == extraction(member@, destination@),
{
    let mut arguments: Vec<Vec<u8>> = Vec::new();
    assert(byte_lists(arguments@) =~= Seq::<Seq<u8>>::empty());
    let start: [&str; 1] = ["-xpf"];
    push_arguments(&mut arguments, vstd::array::array_as_slice(&start));
    let ghost first = byte_lists(arguments@);
    arguments.push(copy(member));
    assert(byte_lists(arguments@) =~= first.push(member@));
    let end: [&str; 3] = ["--no-same-owner", "--no-fflags", "-C"];
    push_arguments(&mut arguments, vstd::array::array_as_slice(&end));
    let ghost second = byte_lists(arguments@);
    arguments.push(copy(destination));
    assert(byte_lists(arguments@) =~= second.push(destination@));
    proof {
        assert(str_views(start@) =~= seq!["-xpf"@]);
        assert(str_views(end@) =~= seq!["--no-same-owner"@, "--no-fflags"@, "-C"@]);
        assert(byte_lists(arguments@) =~= extraction(member@, destination@));
    }
    arguments
}

/// Require a directory that is no link.
pub fn validate_real_directory(
    path: &str,
    description: &str,
    is_link: bool,
    is_directory: bool,
) -> (result: Result<()>)
    ensures
        outcome(result) == if is_link || !is_directory {
            Err::<(), Seq<char>>(description@ + " is not a real directory: "@ + path@)
        } else {
            Ok(())
        },
{
    if is_link || !is_directory {
        return Err(
            AppError::new(
                String::from_str(description).concat(" is not a real directory: ").concat(path),
            ),
        );
    }
    Ok(())
}

/// Require a directory without entries.
pub fn ensure_empty_directory(path: &str, has_entries: bool) -> (result: Result<()>)
    ensures
        outcome(result) == if has_entries {
            Err::<(), Seq<char>>("extraction destination is not empty: "@ + path@)
        } else {
            Ok(())
        },
{
    if has_entries {
        return Err(
            AppError::new(
                String::from_str("extraction destination is not empty: ").concat(path),
            ),
        );
    }
    Ok(())
}

/// The name of a temporary file.
pub open spec fn temporary_text(prefix: Seq<char>, identity: WorkspaceIdentity) -> Seq<char> {
    prefix + "-"@ + decimal(identity.process as nat) + "-"@ + hex_digits(
        identity.nanoseconds as nat,
        32,
    ) + "-"@ + hex_digits(identity.counter as nat, 16)
}

/// Name a temporary file.
pub fn temporary_name(prefix: &str, identity: &WorkspaceIdentity) -> (result: String)
    ensures
        result@ == temporary_text(prefix@, *identity),
{
    String::from_str(prefix).concat("-").concat(
        decimal_text(identity.process as u64).as_str(),
    ).concat("-").concat(hex_text(identity.nanoseconds, 32).as_str()).concat("-").concat(
        hex_text(identity.counter as u128, 16).as_str(),
    )
}

/// The message when all names for a temporary file are taken.
pub open spec fn no_free_name(directory: Seq<char>) -> Seq<char> {
    "could not create a unique temporary file in "@ + directory
}

/// Decide what follows an attempt to create a temporary file in a directory.
pub fn next_temporary_attempt(made: u32, directory: &str, reply: CreationReply) -> (result: Result<
    NextAttempt,
>)
    ensures
        match result {
            Ok(next) => after_attempt(made, MAX_ATTEMPTS, reply, no_free_name(directory@)) == Ok::<
                NextAttempt,
                Seq<char>,
            >(next),
            Err(error) => after_attempt(made, MAX_ATTEMPTS, reply, no_free_name(directory@))
                == Err::<NextAttempt, Seq<char>>(error@),
        },
{
    let exhausted = String::from_str("could not create a unique temporary file in ").concat(
        directory,
    );
    next_attempt(made, MAX_ATTEMPTS, reply, exhausted.as_str())
}

/// A temporary file never has the name of a package.
pub proof fn temporary_files_are_no_packages(prefix: Seq<char>, identity: WorkspaceIdentity)
    ensures
        !has_suffix(temporary_text(prefix, identity), ".pkg.tar.zst"@),
{
    reveal_strlit(".pkg.tar.zst");
    let name = temporary_text(prefix, identity);
    let counter = hex_digits(identity.counter as nat, 16);
    hex_has_only_hex_digits(identity.counter as nat, 16);
    assert(name.last() == counter.last());
    assert(is_hex_digit(counter[counter.len() - 1]));
    if has_suffix(name, ".pkg.tar.zst"@) {
        assert(name.skip(name.len() - ".pkg.tar.zst"@.len()).last() == name.last());
        assert(".pkg.tar.zst"@.last() == 't');
    }
}

} // verus!
