//! The members of a Debian package file.

use vstd::prelude::*;
use vstd::slice::slice_subrange;
use vstd::utf8::encode_utf8;

use crate::bytes::{
    begins_with, byte_lists, byte_texts, contains_byte, copy, has_start, same, split_at_byte,
    split_bytes,
};
use crate::error::{failure, outcome, AppError, Outcome, Result};
use crate::paths::{join_path, joined_path};

verus! {

/// The signature of an `ar` archive.
pub const DEBIAN_AR_MAGIC: [u8; 8] = [0x21, 0x3c, 0x61, 0x72, 0x63, 0x68, 0x3e, 0x0a];

/// The format version of a Debian package.
pub const DEBIAN_FORMAT: [u8; 4] = [0x32, 0x2e, 0x30, 0x0a];

/// The three required members extracted from a Debian binary package.
#[derive(Clone, Debug, Eq, PartialEq)]
pub struct DebArchive {
    pub debian_binary: Vec<u8>,
    pub control_member: Vec<u8>,
    pub data_member: Vec<u8>,
    pub control_member_name: Vec<u8>,
    pub data_member_name: Vec<u8>,
}

/// The mathematical value of a [`DebArchive`].
pub struct DebModel {
    pub debian_binary: Seq<u8>,
    pub control_member: Seq<u8>,
    pub data_member: Seq<u8>,
    pub control_member_name: Seq<u8>,
    pub data_member_name: Seq<u8>,
}

impl DeepView for DebArchive {
    type V = DebModel;

    open spec fn deep_view(&self) -> DebModel {
        DebModel {
            debian_binary: self.debian_binary@,
            control_member: self.control_member@,
            data_member: self.data_member@,
            control_member_name: self.control_member_name@,
            data_member_name: self.data_member_name@,
        }
    }
}

// ---------------------------------------------------------------------------
// Signatures
// ---------------------------------------------------------------------------
/// Validate the outer Debian `ar` signature: the first eight bytes of a file.
pub fn validate_debian_magic(input: &str, magic: &[u8]) -> (result: Result<()>)
    ensures
        outcome(result) == if magic@ == DEBIAN_AR_MAGIC@ {
            Ok::<(), Seq<char>>(())
        } else {
            Err(input@ + " is not a Debian ar archive: invalid !<arch> signature"@)
        },
{
    let expected = DEBIAN_AR_MAGIC;
    if same(magic, vstd::array::array_as_slice(&expected)) {
        Ok(())
    } else {
        Err(
            AppError::new(
                String::from_str(input).concat(
                    " is not a Debian ar archive: invalid !<arch> signature",
                ),
            ),
        )
    }
}

/// Require the exact Debian package format marker `2.0\n`.
pub fn validate_debian_binary(path: &str, contents: &[u8]) -> (result: Result<()>)
    ensures
        outcome(result) == if contents@ == DEBIAN_FORMAT@ {
            Ok::<(), Seq<char>>(())
        } else {
            Err(path@ + " does not contain the Debian package format version 2.0"@)
        },
{
    let expected = DEBIAN_FORMAT;
    if same(contents, vstd::array::array_as_slice(&expected)) {
        Ok(())
    } else {
        Err(
            AppError::new(
                String::from_str(path).concat(
                    " does not contain the Debian package format version 2.0",
                ),
            ),
        )
    }
}

// ---------------------------------------------------------------------------
// Listing
// ---------------------------------------------------------------------------
/// A byte string without a given byte at its end.
pub open spec fn without_last(bytes: Seq<u8>, byte: u8) -> Seq<u8> {
    if bytes.len() > 0 && bytes.last() == byte {
        bytes.drop_last()
    } else {
        bytes
    }
}

/// The member name on a line of a listing.
pub open spec fn line_name(line: Seq<u8>) -> Seq<u8> {
    without_last(without_last(line, 0x0d), 0x2f)
}

/// The member names on lines of a listing.
pub open spec fn names_of_lines(all_lines: Seq<Seq<u8>>) -> Outcome<Seq<Seq<u8>>>
    decreases all_lines.len(),
{
    if all_lines.len() == 0 {
        Ok(seq![])
    } else {
        match names_of_lines(all_lines.drop_last()) {
            Err(message) => Err(message),
            Ok(names) => {
                let line = all_lines.last();
                let name = line_name(line);
                if line.len() == 0 {
                    Ok(names)
                } else if name.len() == 0 || name.contains(0) {
                    Err("ar returned an invalid member name"@)
                } else {
                    Ok(names.push(name))
                }
            },
        }
    }
}

/// The member names of a listing that `ar t` prints.
pub open spec fn listed_names(output: Seq<u8>) -> Outcome<Seq<Seq<u8>>> {
    names_of_lines(split_bytes(output, 0x0a))
}

fn drop_last_byte<'a>(bytes: &'a [u8], byte: u8) -> (result: &'a [u8])
    ensures
        result@ == without_last(bytes@, byte),
{
    if bytes.len() > 0 && bytes[bytes.len() - 1] == byte {
        let shorter = slice_subrange(bytes, 0, bytes.len() - 1);
        assert(shorter@ == bytes@.drop_last());
        shorter
    } else {
        bytes
    }
}

proof fn lemma_names_prefix(all_lines: Seq<Seq<u8>>, length: int)
    requires
        0 <= length <= all_lines.len(),
        names_of_lines(all_lines.take(length)) is Err,
    ensures
        names_of_lines(all_lines) == names_of_lines(all_lines.take(length)),
    decreases all_lines.len(),
{
    if length < all_lines.len() {
        assert(all_lines.drop_last().take(length) == all_lines.take(length));
        lemma_names_prefix(all_lines.drop_last(), length);
    } else {
        assert(all_lines.take(length) == all_lines);
    }
}

/// List the member names that `ar t` prints.
pub fn parse_ar_member_listing(output: &[u8]) -> (result: Result<Vec<Vec<u8>>>)
    ensures
        match result {
            Ok(names) => listed_names(output@) == Ok::<Seq<Seq<u8>>, Seq<char>>(
                byte_lists(names@),
            ),
            Err(error) => listed_names(output@) == Err::<Seq<Seq<u8>>, Seq<char>>(error@),
        },
{
    let all_lines = split_at_byte(output, 0x0a);
    let ghost all = byte_texts(all_lines@);
    let mut names: Vec<Vec<u8>> = Vec::new();
    assert(byte_lists(names@) =~= Seq::<Seq<u8>>::empty());
    for index in 0..all_lines.len()
        invariant
            all == byte_texts(all_lines@),
            all == split_bytes(output@, 0x0a),
            names_of_lines(all.take(index as int)) == Ok::<Seq<Seq<u8>>, Seq<char>>(
                byte_lists(names@),
            ),
    {
        let line = all_lines[index];
        let ghost before = byte_lists(names@);
        proof {
            assert(all.take(index + 1).drop_last() == all.take(index as int));
            assert(all.take(index + 1).last() == line@);
            if names_of_lines(all.take(index + 1)) is Err {
                lemma_names_prefix(all, index + 1);
            }
        }
        if line.len() > 0 {
            let name = drop_last_byte(drop_last_byte(line, 0x0d), 0x2f);
            if name.len() == 0 || contains_byte(name, 0) {
                return Err(failure("ar returned an invalid member name"));
            }
            let one = copy(name);
            names.push(one);
            assert(byte_lists(names@) =~= before.push(name@));
        }
    }
    assert(all.take(all.len() as int) == all);
    Ok(names)
}

// ---------------------------------------------------------------------------
// Selection
// ---------------------------------------------------------------------------
/// A name, or the start of names, that members are selected by.
pub enum MemberRule {
    Exactly(&'static str),
    StartsWith(&'static str),
}

impl MemberRule {
    pub open spec fn selects(self, name: Seq<u8>) -> bool {
        match self {
            MemberRule::Exactly(text) => name == encode_utf8(text@),
            MemberRule::StartsWith(text) => begins_with(name, encode_utf8(text@)),
        }
    }

    fn accepts(&self, name: &[u8]) -> (result: bool)
        ensures
            result == self.selects(name@),
    {
        match self {
            MemberRule::Exactly(text) => same(name, text.as_bytes()),
            MemberRule::StartsWith(text) => has_start(name, text.as_bytes()),
        }
    }
}

/// The names that a rule selects.
pub open spec fn selected_names(names: Seq<Seq<u8>>, rule: MemberRule) -> Seq<Seq<u8>> {
    names.filter(|name: Seq<u8>| rule.selects(name))
}

/// The one name that a rule selects.
pub open spec fn unique_name(names: Seq<Seq<u8>>, rule: MemberRule, description: Seq<char>) -> Outcome<
    Seq<u8>,
> {
    let selected = selected_names(names, rule);
    if selected.len() == 1 {
        Ok(selected[0])
    } else if selected.len() == 0 {
        Err("Debian archive has no "@ + description + " member"@)
    } else {
        Err("Debian archive has more than one "@ + description + " member"@)
    }
}

fn unique_member(names: &Vec<Vec<u8>>, rule: MemberRule, description: &str) -> (result: Result<
    Vec<u8>,
>)
    ensures
        match result {
            Ok(name) => unique_name(byte_lists(names@), rule, description@) == Ok::<
                Seq<u8>,
                Seq<char>,
            >(name@),
            Err(error) => unique_name(byte_lists(names@), rule, description@) == Err::<
                Seq<u8>,
                Seq<char>,
            >(error@),
        },
{
    let ghost all = byte_lists(names@);
    let mut selected: Vec<Vec<u8>> = Vec::new();
    assert(byte_lists(selected@) =~= selected_names(all.take(0), rule)) by {
        reveal(Seq::filter);
    }
    for index in 0..names.len()
        invariant
            all == byte_lists(names@),
            byte_lists(selected@) == selected_names(all.take(index as int), rule),
    {
        let ghost before = byte_lists(selected@);
        proof {
            assert(all.take(index + 1).drop_last() == all.take(index as int));
            assert(all.take(index + 1).last() == names@[index as int]@);
            reveal(Seq::filter);
        }
        if rule.accepts(names[index].as_slice()) {
            let one = copy(names[index].as_slice());
            selected.push(one);
            assert(byte_lists(selected@) =~= before.push(names@[index as int]@));
        }
    }
    assert(all.take(all.len() as int) == all);
    let ghost found = byte_lists(selected@);
    assert(found.len() == selected@.len());
    if selected.len() == 1 {
        assert(found[0] == selected@[0]@);
        Ok(copy(selected[0].as_slice()))
    } else if selected.len() == 0 {
        Err(
            AppError::new(
                String::from_str("Debian archive has no ").concat(description).concat(" member"),
            ),
        )
    } else {
        Err(
            AppError::new(
                String::from_str("Debian archive has more than one ").concat(description).concat(
                    " member",
                ),
            ),
        )
    }
}

/// The members of a listing and the files that they are extracted to.
pub open spec fn archive_of(listing: Seq<u8>, directory: Seq<u8>) -> Outcome<DebModel> {
    match listed_names(listing) {
        Err(message) => Err(message),
        Ok(names) => match unique_name(
            names,
            MemberRule::Exactly("debian-binary"),
            "debian-binary"@,
        ) {
            Err(message) => Err(message),
            Ok(_) => match unique_name(
                names,
                MemberRule::StartsWith("control.tar"),
                "control.tar*"@,
            ) {
                Err(message) => Err(message),
                Ok(control_member_name) => match unique_name(
                    names,
                    MemberRule::StartsWith("data.tar"),
                    "data.tar*"@,
                ) {
                    Err(message) => Err(message),
                    Ok(data_member_name) => Ok(
                        DebModel {
                            debian_binary: joined_path(directory, encode_utf8("debian-binary"@)),
                            control_member: joined_path(
                                directory,
                                encode_utf8("control.archive"@),
                            ),
                            data_member: joined_path(directory, encode_utf8("data.archive"@)),
                            control_member_name,
                            data_member_name,
                        },
                    ),
                },
            },
        },
    }
}

/// Find the required members in the listing of a Debian package, and the
/// files in a directory that they are extracted to.
///
/// Extra outer members, such as `_gpgorigin`, are accepted. There must be one
/// `debian-binary`, one `control.tar*`, and one `data.tar*` member.
pub fn extract_deb_members(listing: &[u8], members_dir: &[u8]) -> (result: Result<DebArchive>)
    ensures
        outcome(result) == archive_of(listing@, members_dir@),
{
    let names = parse_ar_member_listing(listing)?;
    unique_member(&names, MemberRule::Exactly("debian-binary"), "debian-binary")?;
    let control_member_name = unique_member(
        &names,
        MemberRule::StartsWith("control.tar"),
        "control.tar*",
    )?;
    let data_member_name = unique_member(&names, MemberRule::StartsWith("data.tar"), "data.tar*")?;
    Ok(
        DebArchive {
            debian_binary: join_path(members_dir, "debian-binary".as_bytes()),
            control_member: join_path(members_dir, "control.archive".as_bytes()),
            data_member: join_path(members_dir, "data.archive".as_bytes()),
            control_member_name,
            data_member_name,
        },
    )
}

/// Compatibility alias for [`extract_deb_members`].
pub fn extract_members(listing: &[u8], members_dir: &[u8]) -> (result: Result<DebArchive>)
    ensures
        outcome(result) == archive_of(listing@, members_dir@),
{
    extract_deb_members(listing, members_dir)
}

} // verus!
