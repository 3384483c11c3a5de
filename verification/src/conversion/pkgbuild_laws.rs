//! What a PKGBUILD tells.

use vstd::prelude::*;

use crate::conversion::package::PackageModel;
use crate::conversion::pkgbuild::{
    assignment, list_assignment, optional_assignment, pkgbuild_metadata, pkgbuild_source,
    quoted_texts_are_read_back, shell_reads, shell_word,
};
use crate::number::decimal;
use crate::pieces::{join, occurs_in};

verus! {

/// The pieces of a text, one behind the other.
pub open spec fn in_a_row(pieces: Seq<Seq<char>>) -> Seq<char>
    decreases pieces.len(),
{
    if pieces.len() == 0 {
        seq![]
    } else {
        in_a_row(pieces.drop_last()) + pieces.last()
    }
}

/// Each piece occurs in the text.
pub proof fn piece_occurs(pieces: Seq<Seq<char>>, index: int)
    requires
        0 <= index < pieces.len(),
    ensures
        occurs_in(pieces[index], in_a_row(pieces)),
    decreases pieces.len(),
{
    let before = in_a_row(pieces.drop_last());
    let last = pieces.last();
    let piece = pieces[index];
    let whole = in_a_row(pieces);
    if index == pieces.len() - 1 {
        let at = before.len() as int;
        assert(whole.subrange(at, at + piece.len()) =~= piece);
    } else {
        piece_occurs(pieces.drop_last(), index);
        let at = choose|at: int|
            0 <= at && at + piece.len() <= before.len() && #[trigger] before.subrange(
                at,
                at + piece.len(),
            ) == piece;
        assert(whole.subrange(at, at + piece.len()) =~= piece);
    }
}

/// One more piece stands behind those before it.
pub proof fn next_piece(pieces: Seq<Seq<char>>, length: int)
    requires
        0 <= length < pieces.len(),
    ensures
        in_a_row(pieces.take(length + 1)) == in_a_row(pieces.take(length)) + pieces[length],
{
    assert(pieces.take(length + 1).drop_last() =~= pieces.take(length));
    assert(pieces.take(length + 1).last() == pieces[length]);
}

/// A value stands as a word of the list with a name, between brackets.
pub open spec fn lists_value(text: Seq<char>, name: Seq<char>, value: Seq<char>) -> bool {
    exists|before: Seq<char>, after: Seq<char>|
        occurs_in(
            #[trigger] (name + "=("@ + before + shell_word(value) + after + ")\n"@),
            text,
        )
}

proof fn lemma_listed_value(
    text: Seq<char>,
    name: Seq<char>,
    values: Seq<Seq<char>>,
    value: Seq<char>,
)
    requires
        occurs_in(list_assignment(name, values), text),
        values.contains(value),
    ensures
        lists_value(text, name, value),
{
    let index = choose|index: int| 0 <= index < values.len() && values[index] == value;
    let all = values.map_values(|one: Seq<char>| shell_word(one));
    let (before, after) = lemma_joined_word(all, " "@, index);
    let line = name + "=("@ + before + shell_word(value) + after + ")\n"@;
    assert(line =~= list_assignment(name, values));
}

proof fn lemma_joined_word(list: Seq<Seq<char>>, separator: Seq<char>, index: int) -> (parts: (
    Seq<char>,
    Seq<char>,
))
    requires
        0 <= index < list.len(),
    ensures
        join(list, separator) == parts.0 + list[index] + parts.1,
    decreases list.len(),
{
    let none = Seq::<char>::empty();
    if list.len() == 1 {
        assert(none + list[0] + none =~= list[0]);
        (none, none)
    } else if index == list.len() - 1 {
        let before = join(list.drop_last(), separator) + separator;
        assert(before + list[index] + none =~= before + list.last());
        (before, none)
    } else {
        let parts = lemma_joined_word(list.drop_last(), separator, index);
        let after = parts.1 + separator + list.last();
        assert(parts.0 + list[index] + after =~= join(list, separator));
        (parts.0, after)
    }
}

/// The epoch of a package as text, if it has one.
pub open spec fn epoch_text(package: PackageModel) -> Option<Seq<char>> {
    match package.epoch {
        Some(epoch) => Some(decimal(epoch as nat)),
        None => None,
    }
}

/// The assignments that describe a package.
pub open spec fn metadata_pieces(package: PackageModel) -> Seq<Seq<char>> {
    seq![
        assignment("pkgname"@, package.pkgname),
        assignment("pkgver"@, package.version),
        assignment("pkgrel"@, package.release),
        optional_assignment("epoch"@, epoch_text(package)),
        optional_assignment("pkgdesc"@, package.description),
        optional_assignment("url"@, package.url),
        list_assignment("arch"@, seq![package.architecture]),
        list_assignment("license"@, package.licenses),
        list_assignment("depends"@, package.depends),
        list_assignment("optdepends"@, package.optional_depends),
        list_assignment("provides"@, package.provides),
        list_assignment("conflicts"@, package.conflicts),
        list_assignment("replaces"@, package.replaces),
        list_assignment("backup"@, package.backups),
    ]
}

#[verifier::spinoff_prover]
proof fn lemma_metadata_pieces(package: PackageModel, index: int)
    requires
        0 <= index < 14,
    ensures
        occurs_in(metadata_pieces(package)[index], pkgbuild_metadata(package)),
{
    let pieces = metadata_pieces(package);
    let none = Seq::<char>::empty();
    assert(pieces.take(0) =~= seq![]);
    assert(none + pieces[0] =~= pieces[0]);
    next_piece(pieces, 0);
    next_piece(pieces, 1);
    next_piece(pieces, 2);
    next_piece(pieces, 3);
    next_piece(pieces, 4);
    next_piece(pieces, 5);
    next_piece(pieces, 6);
    next_piece(pieces, 7);
    next_piece(pieces, 8);
    next_piece(pieces, 9);
    next_piece(pieces, 10);
    next_piece(pieces, 11);
    next_piece(pieces, 12);
    next_piece(pieces, 13);
    assert(pieces.take(14) =~= pieces);
    assert(pkgbuild_metadata(package) == in_a_row(pieces));
    piece_occurs(pieces, index);
}

proof fn lemma_told(name: Seq<char>, start: Seq<char>, value: Seq<char>)
    requires
        start == name + "="@,
    ensures
        assignment(name, value) == start + shell_word(value) + "\n"@,
{
}

proof fn lemma_names()
    ensures
        "pkgname="@ == "pkgname"@ + "="@,
        "pkgver="@ == "pkgver"@ + "="@,
        "pkgrel="@ == "pkgrel"@ + "="@,
        "epoch="@ == "epoch"@ + "="@,
        "pkgdesc="@ == "pkgdesc"@ + "="@,
        "url="@ == "url"@ + "="@,
        "arch=("@ == "arch"@ + "=("@,
{
    reveal_strlit("pkgname");
    reveal_strlit("pkgname=");
    reveal_strlit("pkgver");
    reveal_strlit("pkgver=");
    reveal_strlit("pkgrel");
    reveal_strlit("pkgrel=");
    reveal_strlit("epoch");
    reveal_strlit("epoch=");
    reveal_strlit("pkgdesc");
    reveal_strlit("pkgdesc=");
    reveal_strlit("url");
    reveal_strlit("url=");
    reveal_strlit("arch");
    reveal_strlit("arch=(");
    reveal_strlit("=");
    reveal_strlit("=(");
    assert("pkgname="@ =~= "pkgname"@ + "="@);
    assert("pkgver="@ =~= "pkgver"@ + "="@);
    assert("pkgrel="@ =~= "pkgrel"@ + "="@);
    assert("epoch="@ =~= "epoch"@ + "="@);
    assert("pkgdesc="@ =~= "pkgdesc"@ + "="@);
    assert("url="@ =~= "url"@ + "="@);
    assert("arch=("@ =~= "arch"@ + "=("@);
}

/// A PKGBUILD tells each part of the package under its own name: the texts as one
/// word, and the lists with each of their values as a word of its own.
#[verifier::spinoff_prover]
pub proof fn pkgbuilds_tell_every_part(package: PackageModel, value: Seq<char>)
    ensures
        ({
            let text = pkgbuild_metadata(package);
            &&& occurs_in("pkgname="@ + shell_word(package.pkgname) + "\n"@, text)
            &&& occurs_in("pkgver="@ + shell_word(package.version) + "\n"@, text)
            &&& occurs_in("pkgrel="@ + shell_word(package.release) + "\n"@, text)
            &&& package.epoch matches Some(epoch) ==> occurs_in(
                "epoch="@ + shell_word(decimal(epoch as nat)) + "\n"@,
                text,
            )
            &&& package.description == Some(value) ==> occurs_in(
                "pkgdesc="@ + shell_word(value) + "\n"@,
                text,
            )
            &&& package.url == Some(value) ==> occurs_in(
                "url="@ + shell_word(value) + "\n"@,
                text,
            )
            &&& occurs_in("arch=("@ + shell_word(package.architecture) + ")\n"@, text)
            &&& package.licenses.contains(value) ==> lists_value(text, "license"@, value)
            &&& package.depends.contains(value) ==> lists_value(text, "depends"@, value)
            &&& package.optional_depends.contains(value) ==> lists_value(
                text,
                "optdepends"@,
                value,
            )
            &&& package.provides.contains(value) ==> lists_value(text, "provides"@, value)
            &&& package.conflicts.contains(value) ==> lists_value(text, "conflicts"@, value)
            &&& package.replaces.contains(value) ==> lists_value(text, "replaces"@, value)
            &&& package.backups.contains(value) ==> lists_value(text, "backup"@, value)
        }),
{
    let text = pkgbuild_metadata(package);
    lemma_metadata_pieces(package, 0);
    lemma_metadata_pieces(package, 1);
    lemma_metadata_pieces(package, 2);
    lemma_metadata_pieces(package, 3);
    lemma_metadata_pieces(package, 4);
    lemma_metadata_pieces(package, 5);
    lemma_metadata_pieces(package, 6);
    lemma_metadata_pieces(package, 7);
    lemma_metadata_pieces(package, 8);
    lemma_metadata_pieces(package, 9);
    lemma_metadata_pieces(package, 10);
    lemma_metadata_pieces(package, 11);
    lemma_metadata_pieces(package, 12);
    lemma_metadata_pieces(package, 13);
    lemma_names();
    lemma_told("pkgname"@, "pkgname="@, package.pkgname);
    lemma_told("pkgver"@, "pkgver="@, package.version);
    lemma_told("pkgrel"@, "pkgrel="@, package.release);
    if let Some(epoch) = package.epoch {
        lemma_told("epoch"@, "epoch="@, decimal(epoch as nat));
    }
    lemma_told("pkgdesc"@, "pkgdesc="@, value);
    lemma_told("url"@, "url="@, value);
    let words = seq![package.architecture].map_values(|one: Seq<char>| shell_word(one));
    assert(join(words, " "@) == words[0]);
    if package.licenses.contains(value) {
        lemma_listed_value(text, "license"@, package.licenses, value);
    }
    if package.depends.contains(value) {
        lemma_listed_value(text, "depends"@, package.depends, value);
    }
    if package.optional_depends.contains(value) {
        lemma_listed_value(text, "optdepends"@, package.optional_depends, value);
    }
    if package.provides.contains(value) {
        lemma_listed_value(text, "provides"@, package.provides, value);
    }
    if package.conflicts.contains(value) {
        lemma_listed_value(text, "conflicts"@, package.conflicts, value);
    }
    if package.replaces.contains(value) {
        lemma_listed_value(text, "replaces"@, package.replaces, value);
    }
    if package.backups.contains(value) {
        lemma_listed_value(text, "backup"@, package.backups, value);
    }
}

/// The rest of a PKGBUILD names the Debian package as its source, with its digest,
/// and takes the files of the package from its data archive.
pub proof fn pkgbuilds_unpack_their_source(
    source: Seq<char>,
    digest: Seq<char>,
    data_member: Seq<char>,
)
    ensures
        ({
            let text = pkgbuild_source(source, digest, data_member);
            &&& occurs_in("source=("@ + shell_word(source) + ")\n"@, text)
            &&& occurs_in("sha256sums=("@ + shell_word(digest) + ")\n"@, text)
            &&& occurs_in(
                "ar p "@ + shell_word(source) + " "@ + shell_word(data_member) + " | bsdtar -xpf - -C "@,
                text,
            )
        }),
        shell_reads(shell_word(source), false) == Some(source),
        shell_reads(shell_word(data_member), false) == Some(data_member),
{
    quoted_texts_are_read_back(source);
    quoted_texts_are_read_back(data_member);
    let text = pkgbuild_source(source, digest, data_member);
    let command = "ar p "@ + shell_word(source) + " "@ + shell_word(data_member)
        + " | bsdtar -xpf - -C "@;
    reveal_strlit("\npackage() {\n  ar p ");
    reveal_strlit("\npackage() {\n  ");
    reveal_strlit("ar p ");
    reveal_strlit(" | bsdtar -xpf - -C ");
    reveal_strlit(" | bsdtar -xpf - -C \"$pkgdir\"\n}\n");
    reveal_strlit("source");
    reveal_strlit("source=(");
    reveal_strlit("sha256sums");
    reveal_strlit("sha256sums=(");
    reveal_strlit("=(");
    assert("source=("@ =~= "source"@ + "=("@);
    assert("sha256sums=("@ =~= "sha256sums"@ + "=("@);
    assert("\npackage() {\n  ar p "@ =~= "\npackage() {\n  "@ + "ar p "@);
    let end = " | bsdtar -xpf - -C \"$pkgdir\"\n}\n"@;
    let start = " | bsdtar -xpf - -C "@;
    let rest = end.skip(start.len() as int);
    assert(end =~= start + rest);
    let one = seq![source].map_values(|one: Seq<char>| shell_word(one));
    let two = seq![digest].map_values(|one: Seq<char>| shell_word(one));
    assert(join(one, " "@) == one[0]);
    assert(join(two, " "@) == two[0]);
    let pieces = seq![
        list_assignment("source"@, seq![source]),
        list_assignment("noextract"@, seq![source]),
        list_assignment("sha256sums"@, seq![digest]),
        "\npackage() {\n  "@,
        command,
        rest,
    ];
    assert(pieces.take(0) =~= seq![]);
    next_piece(pieces, 0);
    next_piece(pieces, 1);
    next_piece(pieces, 2);
    next_piece(pieces, 3);
    next_piece(pieces, 4);
    next_piece(pieces, 5);
    assert(pieces.take(6) =~= pieces);
    assert(text =~= in_a_row(pieces));
    piece_occurs(pieces, 0);
    piece_occurs(pieces, 2);
    piece_occurs(pieces, 4);
}

} // verus!
