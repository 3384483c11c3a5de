//! The PKGBUILD file of an Arch package.

use vstd::prelude::*;

use crate::conversion::package::{ArchPackageMetadata, PackageModel};
use crate::number::{decimal, decimal_text};
use crate::pieces::{join, joined_strings};
use crate::text::chars;

verus! {

/// A text with each single quote closed, escaped and opened again.
pub open spec fn escaped(text: Seq<char>) -> Seq<char>
    decreases text.len(),
{
    if text.len() == 0 {
        seq![]
    } else if text.last() == '\'' {
        escaped(text.drop_last()) + "'\\''"@
    } else {
        escaped(text.drop_last()).push(text.last())
    }
}

/// A text as one word of a shell.
pub open spec fn shell_word(text: Seq<char>) -> Seq<char> {
    "'"@ + escaped(text) + "'"@
}

/// Write a text as one word of a shell.
pub fn shell_quoted(text: &str) -> (result: String)
    ensures
        result@ == shell_word(text@),
{
    let characters = chars(text);
    let mut inner = String::from_str("");
    assert(inner@ =~= escaped(text@.take(0))) by {
        reveal_strlit("");
    }
    for index in 0..characters.len()
        invariant
            characters@ == text@,
            inner@ == escaped(text@.take(index as int)),
    {
        proof {
            assert(text@.take(index + 1).drop_last() == text@.take(index as int));
            assert(text@.take(index + 1).last() == text@[index as int]);
        }
        if characters[index] == '\'' {
            inner = inner.concat("'\\''");
        } else {
            inner.push(characters[index]);
        }
    }
    assert(text@.take(text@.len() as int) == text@);
    String::from_str("'").concat(inner.as_str()).concat("'")
}

/// The assignment of a value.
pub open spec fn assignment(name: Seq<char>, value: Seq<char>) -> Seq<char> {
    name + "="@ + shell_word(value) + "\n"@
}

/// The assignment of a value that may be absent.
pub open spec fn optional_assignment(name: Seq<char>, value: Option<Seq<char>>) -> Seq<char> {
    match value {
        Some(value) => assignment(name, value),
        None => seq![],
    }
}

/// The assignment of a list.
pub open spec fn list_assignment(name: Seq<char>, values: Seq<Seq<char>>) -> Seq<char> {
    name + "=("@ + join(values.map_values(|value: Seq<char>| shell_word(value)), " "@) + ")\n"@
}

/// The part of a PKGBUILD that describes the package.
pub open spec fn pkgbuild_metadata(package: PackageModel) -> Seq<char> {
    assignment("pkgname"@, package.pkgname) + assignment("pkgver"@, package.version) + assignment(
        "pkgrel"@,
        package.release,
    ) + optional_assignment(
        "epoch"@,
        match package.epoch {
            Some(epoch) => Some(decimal(epoch as nat)),
            None => None,
        },
    ) + optional_assignment("pkgdesc"@, package.description) + optional_assignment(
        "url"@,
        package.url,
    ) + list_assignment("arch"@, seq![package.architecture]) + list_assignment(
        "license"@,
        package.licenses,
    ) + list_assignment("depends"@, package.depends) + list_assignment(
        "optdepends"@,
        package.optional_depends,
    ) + list_assignment("provides"@, package.provides) + list_assignment(
        "conflicts"@,
        package.conflicts,
    ) + list_assignment("replaces"@, package.replaces) + list_assignment(
        "backup"@,
        package.backups,
    )
}

/// The part of a PKGBUILD that names the Debian package and unpacks it.
pub open spec fn pkgbuild_source(
    source: Seq<char>,
    digest: Seq<char>,
    data_member: Seq<char>,
) -> Seq<char> {
    list_assignment("source"@, seq![source]) + list_assignment("noextract"@, seq![source])
        + list_assignment("sha256sums"@, seq![digest]) + "\npackage() {\n  ar p "@ + shell_word(
        source,
    ) + " "@ + shell_word(data_member) + " | bsdtar -xpf - -C \"$pkgdir\"\n}\n"@
}

fn assigned(name: &str, value: &str) -> (result: String)
    ensures
        result@ == assignment(name@, value@),
{
    String::from_str(name).concat("=").concat(shell_quoted(value).as_str()).concat("\n")
}

fn optionally_assigned(name: &str, value: &Option<String>) -> (result: String)
    ensures
        result@ == optional_assignment(name@, value.deep_view()),
{
    match value {
        Some(value) => assigned(name, value.as_str()),
        None => {
            let nothing = String::from_str("");
            assert(nothing@ =~= seq![]) by {
                reveal_strlit("");
            }
            nothing
        },
    }
}

fn assigned_list(name: &str, values: &Vec<String>) -> (result: String)
    ensures
        result@ == list_assignment(name@, values.deep_view()),
{
    let ghost all = values.deep_view();
    let ghost expected = all.map_values(|value: Seq<char>| shell_word(value));
    let mut words: Vec<String> = Vec::new();
    assert(words.deep_view() =~= expected.take(0));
    for index in 0..values.len()
        invariant
            all == values.deep_view(),
            expected == all.map_values(|value: Seq<char>| shell_word(value)),
            words.deep_view() == expected.take(index as int),
    {
        let ghost before = words.deep_view();
        let word = shell_quoted(values[index].as_str());
        words.push(word);
        assert(words.deep_view() =~= before.push(word@));
        assert(expected[index as int] == word@);
        assert(expected.take(index + 1) =~= before.push(expected[index as int]));
    }
    assert(expected.take(expected.len() as int) == expected);
    String::from_str(name).concat("=(").concat(joined_strings(&words, " ").as_str()).concat(")\n")
}

fn assigned_word(name: &str, value: &str) -> (result: String)
    ensures
        result@ == list_assignment(name@, seq![value@]),
{
    let mut values: Vec<String> = Vec::new();
    values.push(String::from_str(value));
    assert(values.deep_view() =~= seq![value@]);
    assigned_list(name, &values)
}

fn describe_package(package: &ArchPackageMetadata) -> (result: String)
    ensures
        result@ == pkgbuild_metadata(package.deep_view()),
{
    let epoch = match package.epoch {
        Some(epoch) => Some(decimal_text(epoch)),
        None => None,
    };
    assigned("pkgname", package.pkgname.as_str()).concat(
        assigned("pkgver", package.version.as_str()).as_str(),
    ).concat(assigned("pkgrel", package.release.as_str()).as_str()).concat(
        optionally_assigned("epoch", &epoch).as_str(),
    ).concat(optionally_assigned("pkgdesc", &package.description).as_str()).concat(
        optionally_assigned("url", &package.url).as_str(),
    ).concat(assigned_word("arch", package.architecture.as_str()).as_str()).concat(
        assigned_list("license", &package.licenses).as_str(),
    ).concat(assigned_list("depends", &package.depends).as_str()).concat(
        assigned_list("optdepends", &package.optional_depends).as_str(),
    ).concat(assigned_list("provides", &package.provides).as_str()).concat(
        assigned_list("conflicts", &package.conflicts).as_str(),
    ).concat(assigned_list("replaces", &package.replaces).as_str()).concat(
        assigned_list("backup", &package.backups).as_str(),
    )
}

/// Write the PKGBUILD that repeats the conversion of a Debian package.
pub fn pkgbuild_text(
    package: &ArchPackageMetadata,
    source: &str,
    digest: &str,
    data_member: &str,
) -> (result: String)
    ensures
        result@ == pkgbuild_metadata(package.deep_view()) + pkgbuild_source(
            source@,
            digest@,
            data_member@,
        ),
{
    let start = describe_package(package);
    let rest = assigned_word("source", source).concat(
        assigned_word("noextract", source).as_str(),
    ).concat(assigned_word("sha256sums", digest).as_str()).concat(
        "\npackage() {\n  ar p ",
    ).concat(shell_quoted(source).as_str()).concat(" ").concat(
        shell_quoted(data_member).as_str(),
    ).concat(" | bsdtar -xpf - -C \"$pkgdir\"\n}\n");
    start.concat(rest.as_str())
}

// ---------------------------------------------------------------------------
// Laws
// ---------------------------------------------------------------------------
/// What a shell reads of a word that is made of quoted parts and escaped
/// characters, or of the rest of such a word inside of a quoted part.
pub open spec fn shell_reads(word: Seq<char>, in_quotes: bool) -> Option<Seq<char>>
    decreases word.len(),
{
    if word.len() == 0 {
        if in_quotes {
            None
        } else {
            Some(seq![])
        }
    } else if word[0] == '\'' {
        shell_reads(word.drop_first(), !in_quotes)
    } else if in_quotes {
        match shell_reads(word.drop_first(), true) {
            Some(text) => Some(seq![word[0]] + text),
            None => None,
        }
    } else if word[0] == '\\' && word.len() >= 2 {
        match shell_reads(word.skip(2), false) {
            Some(text) => Some(seq![word[1]] + text),
            None => None,
        }
    } else {
        None
    }
}

proof fn lemma_escaped_is_read(text: Seq<char>, tail: Seq<char>)
    requires
        shell_reads(tail, true) is Some,
    ensures
        shell_reads(escaped(text) + tail, true) == Some(text + shell_reads(tail, true)->Some_0),
    decreases text.len(),
{
    let read = shell_reads(tail, true)->Some_0;
    if text.len() == 0 {
        assert(escaped(text) + tail =~= tail);
        assert(text + read =~= read);
    } else {
        let start = text.drop_last();
        let last = text.last();
        let piece = if last == '\'' {
            "'\\''"@
        } else {
            seq![last]
        };
        let longer = piece + tail;
        assert(escaped(text) + tail =~= escaped(start) + longer);
        if last == '\'' {
            reveal_strlit("'\\''");
            assert(longer.drop_first()[0] == '\\');
            assert(longer.drop_first()[1] == '\'');
            assert(longer.drop_first().skip(2)[0] == '\'');
            assert(longer.drop_first().skip(2).drop_first() =~= tail);
            assert(shell_reads(longer.drop_first().skip(2), false) == Some(read));
            assert(shell_reads(longer.drop_first(), false) == Some(seq!['\''] + read));
        } else {
            assert(longer.drop_first() =~= tail);
        }
        assert(shell_reads(longer, true) == Some(seq![last] + read));
        lemma_escaped_is_read(start, longer);
        assert(start + (seq![last] + read) =~= text + read);
    }
}

/// A shell reads a quoted text as it was.
pub proof fn quoted_texts_are_read_back(text: Seq<char>)
    ensures
        shell_reads(shell_word(text), false) == Some(text),
{
    reveal_strlit("'");
    let tail = "'"@;
    assert(tail.drop_first() =~= seq![]);
    assert(shell_reads(tail.drop_first(), false) == Some(Seq::<char>::empty()));
    assert(shell_reads(tail, true) == Some(Seq::<char>::empty()));
    lemma_escaped_is_read(text, tail);
    assert(text + Seq::<char>::empty() =~= text);
    assert(shell_word(text).drop_first() =~= escaped(text) + tail);
    assert(shell_word(text)[0] == '\'');
}

} // verus!
