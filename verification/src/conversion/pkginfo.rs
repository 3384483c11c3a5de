//! The `.PKGINFO` file of an Arch package.

use vstd::prelude::*;

use crate::conversion::package::{ArchPackageMetadata, PackageModel};
use crate::digest::is_sha256;
use crate::installer::annotations::{
    annotation_lines, note_lines, notes_are_read_behind_other_lines, notes_of, AnnotationsModel,
    PackageAnnotations,
};
use crate::number::{decimal, decimal_text};
use crate::pieces::{
    is_line, lines, lowercase, trim, unlines, written_lines, written_lines_are_read_back,
};
use crate::text::has_prefix;

verus! {

/// The line that gives a key a value.
pub open spec fn entry(key: Seq<char>, value: Seq<char>) -> Seq<char> {
    key + " = "@ + value
}

/// The lines that give a key the values of a list.
pub open spec fn entries(key: Seq<char>, values: Seq<Seq<char>>) -> Seq<Seq<char>> {
    values.map_values(|value: Seq<char>| entry(key, value))
}

/// The line that gives a key a value that may be absent.
pub open spec fn optional_entry(key: Seq<char>, value: Option<Seq<char>>) -> Seq<Seq<char>> {
    match value {
        Some(value) => seq![entry(key, value)],
        None => seq![],
    }
}

/// The lines that identify the package.
pub open spec fn identity_lines(package: PackageModel) -> Seq<Seq<char>> {
    seq![
        entry("pkgname"@, package.pkgname),
        entry("pkgbase"@, package.pkgbase),
        entry("xdata"@, "pkgtype=pkg"@),
        entry("pkgver"@, package.full_version),
    ] + optional_entry("pkgdesc"@, package.description) + optional_entry("url"@, package.url) + seq![
        entry("builddate"@, decimal(package.builddate as nat)),
        entry("packager"@, package.packager),
        entry("size"@, decimal(package.installed_size as nat)),
        entry("arch"@, package.architecture),
    ]
}

/// The lines that list what belongs to the package.
pub open spec fn list_lines(package: PackageModel) -> Seq<Seq<char>> {
    entries("license"@, package.licenses) + entries("replaces"@, package.replaces) + entries(
        "conflict"@,
        package.conflicts,
    ) + entries("provides"@, package.provides) + entries("backup"@, package.backups) + entries(
        "depend"@,
        package.depends,
    ) + entries("optdepend"@, package.optional_depends)
}

/// The lines that name the Debian package.
pub open spec fn origin_lines(package: PackageModel) -> Seq<Seq<char>> {
    seq![
        entry("xdata"@, "debian-package="@ + package.debian_package),
        entry("xdata"@, "debian-version="@ + package.debian_version),
        entry("xdata"@, "debian-architecture="@ + package.debian_architecture),
    ]
}

/// The lines that describe the package.
pub open spec fn pkginfo(package: PackageModel) -> Seq<Seq<char>> {
    identity_lines(package) + list_lines(package) + origin_lines(package)
}

fn push_entry(lines: &mut Vec<String>, key: &str, value: &str)
    ensures
        final(lines).deep_view() == old(lines).deep_view().push(entry(key@, value@)),
{
    let ghost before = lines.deep_view();
    let line = String::from_str(key).concat(" = ").concat(value);
    lines.push(line);
    assert(lines.deep_view() =~= before.push(entry(key@, value@)));
}

fn push_optional_entry(lines: &mut Vec<String>, key: &str, value: &Option<String>)
    ensures
        final(lines).deep_view() == old(lines).deep_view() + optional_entry(
            key@,
            value.deep_view(),
        ),
{
    let ghost before = lines.deep_view();
    match value {
        Some(value) => {
            push_entry(lines, key, value.as_str());
            assert(before.push(entry(key@, value@)) =~= before + seq![entry(key@, value@)]);
        },
        None => {
            assert(before + seq![] =~= before);
        },
    }
}

fn push_entries(lines: &mut Vec<String>, key: &str, values: &Vec<String>)
    ensures
        final(lines).deep_view() == old(lines).deep_view() + entries(key@, values.deep_view()),
{
    let ghost before = lines.deep_view();
    let ghost all = entries(key@, values.deep_view());
    assert(before + all.take(0) =~= before);
    for index in 0..values.len()
        invariant
            all == entries(key@, values.deep_view()),
            lines.deep_view() == before + all.take(index as int),
    {
        push_entry(lines, key, values[index].as_str());
        assert(all[index as int] == entry(key@, values@[index as int]@));
        assert(before + all.take(index + 1) =~= (before + all.take(index as int)).push(
            all[index as int],
        ));
    }
    assert(all.take(all.len() as int) == all);
}

/// Describe the package in the lines of a `.PKGINFO` file.
pub fn pkginfo_lines(package: &ArchPackageMetadata) -> (result: Vec<String>)
    ensures
        result.deep_view() == pkginfo(package.deep_view()),
{
    let ghost model = package.deep_view();
    let mut lines: Vec<String> = Vec::new();
    push_entry(&mut lines, "pkgname", package.pkgname.as_str());
    push_entry(&mut lines, "pkgbase", package.pkgbase.as_str());
    push_entry(&mut lines, "xdata", "pkgtype=pkg");
    push_entry(&mut lines, "pkgver", package.full_version.as_str());
    push_optional_entry(&mut lines, "pkgdesc", &package.description);
    push_optional_entry(&mut lines, "url", &package.url);
    push_entry(&mut lines, "builddate", decimal_text(package.builddate).as_str());
    push_entry(&mut lines, "packager", package.packager.as_str());
    push_entry(&mut lines, "size", decimal_text(package.installed_size).as_str());
    push_entry(&mut lines, "arch", package.architecture.as_str());
    assert(lines.deep_view() =~= identity_lines(model));
    push_entries(&mut lines, "license", &package.licenses);
    push_entries(&mut lines, "replaces", &package.replaces);
    push_entries(&mut lines, "conflict", &package.conflicts);
    push_entries(&mut lines, "provides", &package.provides);
    push_entries(&mut lines, "backup", &package.backups);
    push_entries(&mut lines, "depend", &package.depends);
    push_entries(&mut lines, "optdepend", &package.optional_depends);
    assert(lines.deep_view() =~= identity_lines(model) + list_lines(model));
    let package_name = String::from_str("debian-package=").concat(package.debian_package.as_str());
    push_entry(&mut lines, "xdata", package_name.as_str());
    let version = String::from_str("debian-version=").concat(package.debian_version.as_str());
    push_entry(&mut lines, "xdata", version.as_str());
    let architecture = String::from_str("debian-architecture=").concat(
        package.debian_architecture.as_str(),
    );
    push_entry(&mut lines, "xdata", architecture.as_str());
    assert(lines.deep_view() =~= identity_lines(model) + list_lines(model) + origin_lines(model));
    lines
}

/// The text of a `.PKGINFO` file with the notes of the conversion.
pub fn pkginfo_text(package: &ArchPackageMetadata, notes: &PackageAnnotations) -> (result: String)
    ensures
        result@ == unlines(pkginfo(package.deep_view()) + note_lines(notes.deep_view())),
{
    let mut lines = pkginfo_lines(package);
    let mut more = annotation_lines(notes);
    let ghost first = lines.deep_view();
    let ghost second = more.deep_view();
    lines.append(&mut more);
    assert(lines.deep_view() =~= first + second);
    written_lines(&lines)
}

// ---------------------------------------------------------------------------
// Laws
// ---------------------------------------------------------------------------
/// The line holds no note of a conversion.
pub open spec fn is_no_note(line: Seq<char>) -> bool {
    has_prefix(line, "xdata = "@) ==> {
        let value = line.skip("xdata = "@.len() as int);
        !has_prefix(value, "debian-sha256="@) && !has_prefix(value, "debforge-warning="@)
    }
}

/// No line of the list holds a note.
pub open spec fn has_no_notes(list: Seq<Seq<char>>) -> bool {
    forall|index: int| 0 <= index < list.len() ==> is_no_note(#[trigger] list[index])
}

proof fn lemma_no_notes(list: Seq<Seq<char>>)
    requires
        has_no_notes(list),
    ensures
        notes_of(list) == Ok::<AnnotationsModel, Seq<char>>(
            AnnotationsModel { source_sha256: None, warnings: seq![] },
        ),
    decreases list.len(),
{
    if list.len() > 0 {
        assert(has_no_notes(list.drop_last()));
        lemma_no_notes(list.drop_last());
        assert(is_no_note(list[list.len() - 1]));
    }
}

proof fn lemma_other_key(key: Seq<char>, value: Seq<char>)
    requires
        key.len() > 0,
        key[0] != 'x',
    ensures
        is_no_note(entry(key, value)),
{
    reveal_strlit("xdata = ");
    let line = entry(key, value);
    assert(line[0] == key[0]);
    if has_prefix(line, "xdata = "@) {
        assert(line.take("xdata = "@.len() as int)[0] == line[0]);
    }
}

proof fn lemma_other_keys(key: Seq<char>, values: Seq<Seq<char>>)
    requires
        key.len() > 0,
        key[0] != 'x',
    ensures
        has_no_notes(entries(key, values)),
{
    assert forall|index: int| 0 <= index < entries(key, values).len() implies is_no_note(
        #[trigger] entries(key, values)[index],
    ) by {
        lemma_other_key(key, values[index]);
    }
}

proof fn lemma_other_data(value: Seq<char>)
    requires
        !has_prefix(value, "debian-sha256="@),
        !has_prefix(value, "debforge-warning="@),
    ensures
        is_no_note(entry("xdata"@, value)),
{
    reveal_strlit("xdata = ");
    reveal_strlit("xdata");
    reveal_strlit(" = ");
    let line = entry("xdata"@, value);
    assert("xdata"@ + " = "@ =~= "xdata = "@);
    assert(line.skip("xdata = "@.len() as int) =~= value);
}

proof fn lemma_identity_has_no_notes(package: PackageModel)
    ensures
        has_no_notes(identity_lines(package)),
{
    reveal_strlit("pkgname");
    reveal_strlit("pkgbase");
    reveal_strlit("pkgver");
    reveal_strlit("pkgdesc");
    reveal_strlit("url");
    reveal_strlit("builddate");
    reveal_strlit("packager");
    reveal_strlit("size");
    reveal_strlit("arch");
    lemma_other_key("pkgname"@, package.pkgname);
    lemma_other_key("pkgbase"@, package.pkgbase);
    lemma_other_key("pkgver"@, package.full_version);
    lemma_other_key("builddate"@, decimal(package.builddate as nat));
    lemma_other_key("packager"@, package.packager);
    lemma_other_key("size"@, decimal(package.installed_size as nat));
    lemma_other_key("arch"@, package.architecture);
    if let Some(value) = package.description {
        lemma_other_key("pkgdesc"@, value);
    }
    if let Some(value) = package.url {
        lemma_other_key("url"@, value);
    }
    assert(is_no_note(entry("xdata"@, "pkgtype=pkg"@))) by {
        reveal_strlit("pkgtype=pkg");
        reveal_strlit("debian-sha256=");
        reveal_strlit("debforge-warning=");
        lemma_other_data("pkgtype=pkg"@);
    }
}

proof fn lemma_lists_have_no_notes(package: PackageModel)
    ensures
        has_no_notes(list_lines(package)),
{
    reveal_strlit("license");
    reveal_strlit("replaces");
    reveal_strlit("conflict");
    reveal_strlit("provides");
    reveal_strlit("backup");
    reveal_strlit("depend");
    reveal_strlit("optdepend");
    lemma_other_keys("license"@, package.licenses);
    lemma_other_keys("replaces"@, package.replaces);
    lemma_other_keys("conflict"@, package.conflicts);
    lemma_other_keys("provides"@, package.provides);
    lemma_other_keys("backup"@, package.backups);
    lemma_other_keys("depend"@, package.depends);
    lemma_other_keys("optdepend"@, package.optional_depends);
}

proof fn lemma_origin_has_no_notes(package: PackageModel)
    ensures
        has_no_notes(origin_lines(package)),
{
    reveal_strlit("debian-package=");
    reveal_strlit("debian-version=");
    reveal_strlit("debian-architecture=");
    reveal_strlit("debian-sha256=");
    reveal_strlit("debforge-warning=");
    let digest = "debian-sha256="@;
    let warning = "debforge-warning="@;
    let name = "debian-package="@ + package.debian_package;
    let version = "debian-version="@ + package.debian_version;
    let architecture = "debian-architecture="@ + package.debian_architecture;
    assert(name.take(digest.len() as int)[7] == 'p');
    assert(version.take(digest.len() as int)[7] == 'v');
    assert(architecture.take(digest.len() as int)[7] == 'a');
    assert(digest[7] == 's');
    if has_prefix(name, warning) {
        assert(name.take(warning.len() as int)[3] == 'i');
    }
    if has_prefix(version, warning) {
        assert(version.take(warning.len() as int)[3] == 'i');
    }
    if has_prefix(architecture, warning) {
        assert(architecture.take(warning.len() as int)[3] == 'i');
    }
    assert(warning[3] == 'f');
    lemma_other_data(name);
    lemma_other_data(version);
    lemma_other_data(architecture);
}

/// The notes of a conversion are read back from the package that it made, if
/// every part of them can stand on a line of its own.
pub proof fn packages_keep_their_notes(package: PackageModel, notes: AnnotationsModel)
    requires
        notes.source_sha256 matches Some(digest) ==> is_sha256(digest) && lowercase(digest)
            == digest,
        notes.warnings.no_duplicates(),
        forall|index: int|
            0 <= index < notes.warnings.len() ==> trim(#[trigger] notes.warnings[index]).len() > 0,
        forall|index: int|
            0 <= index < (pkginfo(package) + note_lines(notes)).len() ==> is_line(
                #[trigger] (pkginfo(package) + note_lines(notes))[index],
            ),
    ensures
        notes_of(lines(unlines(pkginfo(package) + note_lines(notes)))) == Ok::<
            AnnotationsModel,
            Seq<char>,
        >(notes),
{
    lemma_identity_has_no_notes(package);
    lemma_lists_have_no_notes(package);
    lemma_origin_has_no_notes(package);
    lemma_no_notes(pkginfo(package));
    written_lines_are_read_back(pkginfo(package) + note_lines(notes));
    notes_are_read_behind_other_lines(pkginfo(package), notes);
}

// ---------------------------------------------------------------------------
// Lines
// ---------------------------------------------------------------------------
proof fn lemma_same_entry(key: Seq<char>, value: Seq<char>, other: Seq<char>, another: Seq<char>)
    requires
        !key.contains(' '),
        !other.contains(' '),
    ensures
        entry(key, value) == entry(other, another) <==> key == other && value == another,
{
    reveal_strlit(" = ");
    let one = entry(key, value);
    let two = entry(other, another);
    if one == two {
        if key.len() < other.len() {
            assert(one[key.len() as int] == ' ');
            assert(two[key.len() as int] == other[key.len() as int]);
            assert(other.contains(other[key.len() as int]));
        } else if other.len() < key.len() {
            assert(two[other.len() as int] == ' ');
            assert(one[other.len() as int] == key[other.len() as int]);
            assert(key.contains(key[other.len() as int]));
        }
        assert(one.take(key.len() as int) =~= key);
        assert(two.take(other.len() as int) =~= other);
        assert(one.skip(key.len() as int + 3) =~= value);
        assert(two.skip(other.len() as int + 3) =~= another);
    }
}

/// The lines of sections, each with a key and its values.
pub open spec fn section_lines(sections: Seq<(Seq<char>, Seq<Seq<char>>)>) -> Seq<Seq<char>>
    decreases sections.len(),
{
    if sections.len() == 0 {
        seq![]
    } else {
        section_lines(sections.drop_last()) + entries(sections.last().0, sections.last().1)
    }
}

/// Some section gives the key the value.
pub open spec fn some_section_tells(
    sections: Seq<(Seq<char>, Seq<Seq<char>>)>,
    key: Seq<char>,
    value: Seq<char>,
) -> bool {
    exists|index: int|
        0 <= index < sections.len() && (#[trigger] sections[index]).0 == key
            && sections[index].1.contains(value)
}

proof fn lemma_sections(
    sections: Seq<(Seq<char>, Seq<Seq<char>>)>,
    key: Seq<char>,
    value: Seq<char>,
)
    requires
        !key.contains(' '),
        forall|index: int|
            0 <= index < sections.len() ==> !(#[trigger] sections[index]).0.contains(' '),
    ensures
        section_lines(sections).contains(entry(key, value)) <==> some_section_tells(
            sections,
            key,
            value,
        ),
    decreases sections.len(),
{
    if sections.len() > 0 {
        let fewer = sections.drop_last();
        let last = sections.last();
        assert forall|index: int| 0 <= index < fewer.len() implies !(
        #[trigger] fewer[index]).0.contains(' ') by {
            assert(fewer[index] == sections[index]);
        }
        lemma_sections(fewer, key, value);
        let before = section_lines(fewer);
        let more = entries(last.0, last.1);
        let all = section_lines(sections);
        let line = entry(key, value);
        assert(!sections[sections.len() - 1].0.contains(' '));
        if all.contains(line) {
            let at = choose|at: int| 0 <= at < all.len() && all[at] == line;
            if at < before.len() {
                assert(before[at] == line);
                let index = choose|index: int|
                    0 <= index < fewer.len() && (#[trigger] fewer[index]).0 == key
                        && fewer[index].1.contains(value);
                assert(sections[index] == fewer[index]);
            } else {
                let place = at - before.len();
                lemma_same_entry(key, value, last.0, last.1[place]);
                assert(last.1.contains(last.1[place]));
                assert(sections[sections.len() - 1].0 == key);
            }
        }
        if some_section_tells(sections, key, value) {
            let index = choose|index: int|
                0 <= index < sections.len() && (#[trigger] sections[index]).0 == key
                    && sections[index].1.contains(value);
            if index < fewer.len() {
                assert(fewer[index] == sections[index]);
                let at = choose|at: int| 0 <= at < before.len() && before[at] == line;
                assert(all[at] == line);
            } else {
                let place = choose|place: int| 0 <= place < last.1.len() && last.1[place] == value;
                assert(all[before.len() + place] == line);
            }
        }
    }
}

/// A value that may be absent, as a list.
pub open spec fn option_list(value: Option<Seq<char>>) -> Seq<Seq<char>> {
    match value {
        Some(text) => seq![text],
        None => seq![],
    }
}

/// The parts of a package under the keys of its `.PKGINFO` file.
pub open spec fn package_sections(package: PackageModel) -> Seq<(Seq<char>, Seq<Seq<char>>)> {
    seq![
        ("pkgname"@, seq![package.pkgname]),
        ("pkgbase"@, seq![package.pkgbase]),
        ("pkgver"@, seq![package.full_version]),
        ("pkgdesc"@, option_list(package.description)),
        ("url"@, option_list(package.url)),
        ("builddate"@, seq![decimal(package.builddate as nat)]),
        ("packager"@, seq![package.packager]),
        ("size"@, seq![decimal(package.installed_size as nat)]),
        ("arch"@, seq![package.architecture]),
        ("license"@, package.licenses),
        ("replaces"@, package.replaces),
        ("conflict"@, package.conflicts),
        ("provides"@, package.provides),
        ("backup"@, package.backups),
        ("depend"@, package.depends),
        ("optdepend"@, package.optional_depends),
        (
            "xdata"@,
            seq![
                "pkgtype=pkg"@,
                "debian-package="@ + package.debian_package,
                "debian-version="@ + package.debian_version,
                "debian-architecture="@ + package.debian_architecture,
            ],
        ),
    ]
}

proof fn lemma_no_space(key: Seq<char>)
    requires
        key.len() <= 9,
        forall|at: int| 0 <= at < key.len() ==> #[trigger] key[at] != ' ',
    ensures
        !key.contains(' '),
{
}

proof fn lemma_package_keys(package: PackageModel)
    ensures
        forall|index: int|
            0 <= index < package_sections(package).len() ==> !(#[trigger] package_sections(
                package,
            )[index]).0.contains(' '),
        forall|one: int, other: int|
            0 <= one < other < package_sections(package).len() ==> (#[trigger] package_sections(
                package,
            )[one]).0 != (#[trigger] package_sections(package)[other]).0,
{
    reveal_strlit("pkgname");
    reveal_strlit("pkgbase");
    reveal_strlit("xdata");
    reveal_strlit("pkgver");
    reveal_strlit("pkgdesc");
    reveal_strlit("url");
    reveal_strlit("builddate");
    reveal_strlit("packager");
    reveal_strlit("size");
    reveal_strlit("arch");
    reveal_strlit("license");
    reveal_strlit("replaces");
    reveal_strlit("conflict");
    reveal_strlit("provides");
    reveal_strlit("backup");
    reveal_strlit("depend");
    reveal_strlit("optdepend");
    lemma_no_space("pkgname"@);
    lemma_no_space("pkgbase"@);
    lemma_no_space("pkgver"@);
    lemma_no_space("pkgdesc"@);
    lemma_no_space("url"@);
    lemma_no_space("builddate"@);
    lemma_no_space("packager"@);
    lemma_no_space("size"@);
    lemma_no_space("arch"@);
    lemma_no_space("license"@);
    lemma_no_space("replaces"@);
    lemma_no_space("conflict"@);
    lemma_no_space("provides"@);
    lemma_no_space("backup"@);
    lemma_no_space("depend"@);
    lemma_no_space("optdepend"@);
    lemma_no_space("xdata"@);
    assert("pkgname"@[3] != "pkgbase"@[3]);
    assert("pkgname"@[3] != "pkgdesc"@[3]);
    assert("pkgname"@[0] != "license"@[0]);
    assert("pkgbase"@[3] != "pkgdesc"@[3]);
    assert("pkgbase"@[0] != "license"@[0]);
    assert("pkgver"@[0] != "backup"@[0]);
    assert("pkgver"@[0] != "depend"@[0]);
    assert("pkgdesc"@[0] != "license"@[0]);
    assert("builddate"@[0] != "optdepend"@[0]);
    assert("packager"@[0] != "replaces"@[0]);
    assert("packager"@[0] != "conflict"@[0]);
    assert("packager"@[1] != "provides"@[1]);
    assert("size"@[0] != "arch"@[0]);
    assert("replaces"@[0] != "conflict"@[0]);
    assert("replaces"@[0] != "provides"@[0]);
    assert("conflict"@[0] != "provides"@[0]);
    assert("backup"@[0] != "depend"@[0]);
}

/// Whether a line of the `.PKGINFO` file gives a key a value.
pub open spec fn has_line(package: PackageModel, key: Seq<char>, value: Seq<char>) -> bool {
    pkginfo(package).contains(key + " = "@ + value)
}

/// The sections of a `.PKGINFO` file in their order.
pub open spec fn ordered_sections(package: PackageModel) -> Seq<(Seq<char>, Seq<Seq<char>>)> {
    seq![
        ("pkgname"@, seq![package.pkgname]),
        ("pkgbase"@, seq![package.pkgbase]),
        ("xdata"@, seq!["pkgtype=pkg"@]),
        ("pkgver"@, seq![package.full_version]),
        ("pkgdesc"@, option_list(package.description)),
        ("url"@, option_list(package.url)),
        ("builddate"@, seq![decimal(package.builddate as nat)]),
        ("packager"@, seq![package.packager]),
        ("size"@, seq![decimal(package.installed_size as nat)]),
        ("arch"@, seq![package.architecture]),
        ("license"@, package.licenses),
        ("replaces"@, package.replaces),
        ("conflict"@, package.conflicts),
        ("provides"@, package.provides),
        ("backup"@, package.backups),
        ("depend"@, package.depends),
        ("optdepend"@, package.optional_depends),
        (
            "xdata"@,
            seq![
                "debian-package="@ + package.debian_package,
                "debian-version="@ + package.debian_version,
                "debian-architecture="@ + package.debian_architecture,
            ],
        ),
    ]
}

proof fn lemma_next_section(sections: Seq<(Seq<char>, Seq<Seq<char>>)>, length: int)
    requires
        0 <= length < sections.len(),
    ensures
        section_lines(sections.take(length + 1)) == section_lines(sections.take(length)) + entries(
            sections[length].0,
            sections[length].1,
        ),
{
    assert(sections.take(length + 1).drop_last() =~= sections.take(length));
    assert(sections.take(length + 1).last() == sections[length]);
}

proof fn lemma_ordered_sections(package: PackageModel)
    ensures
        pkginfo(package) == section_lines(ordered_sections(package)),
{
    let all = ordered_sections(package);
    assert(all.take(0) =~= seq![]);
    lemma_next_section(all, 0);
    lemma_next_section(all, 1);
    lemma_next_section(all, 2);
    lemma_next_section(all, 3);
    lemma_next_section(all, 4);
    lemma_next_section(all, 5);
    lemma_next_section(all, 6);
    lemma_next_section(all, 7);
    lemma_next_section(all, 8);
    lemma_next_section(all, 9);
    assert(entries("pkgdesc"@, option_list(package.description)) =~= optional_entry(
        "pkgdesc"@,
        package.description,
    ));
    assert(entries("url"@, option_list(package.url)) =~= optional_entry("url"@, package.url));
    assert(section_lines(all.take(10)) =~= identity_lines(package));
    lemma_next_section(all, 10);
    lemma_next_section(all, 11);
    lemma_next_section(all, 12);
    lemma_next_section(all, 13);
    lemma_next_section(all, 14);
    lemma_next_section(all, 15);
    lemma_next_section(all, 16);
    assert(section_lines(all.take(17)) =~= identity_lines(package) + list_lines(package));
    lemma_next_section(all, 17);
    assert(entries(all[17].0, all[17].1) =~= origin_lines(package));
    assert(all.take(18) =~= all);
    assert(pkginfo(package) =~= section_lines(all));
}

proof fn lemma_package_sections(package: PackageModel, key: Seq<char>, value: Seq<char>)
    requires
        !key.contains(' '),
    ensures
        has_line(package, key, value) <==> some_section_tells(
            package_sections(package),
            key,
            value,
        ),
{
    let ordered = ordered_sections(package);
    let all = package_sections(package);
    lemma_ordered_sections(package);
    lemma_package_keys(package);
    assert forall|index: int| 0 <= index < ordered.len() implies !(
    #[trigger] ordered[index]).0.contains(' ') by {
        assert(ordered[index].0 == all[section_place(index)].0);
    }
    lemma_sections(ordered, key, value);
    let origin = all[16].1;
    assert forall|text: Seq<char>| #[trigger] origin.contains(text) <==> ordered[2].1.contains(text)
        || ordered[17].1.contains(text) by {
        if ordered[2].1.contains(text) {
            assert(origin[0] == text);
        }
        if ordered[17].1.contains(text) {
            let at = choose|at: int| 0 <= at < ordered[17].1.len() && ordered[17].1[at] == text;
            assert(origin[at + 1] == text);
        }
        if origin.contains(text) {
            let at = choose|at: int| 0 <= at < origin.len() && origin[at] == text;
            if at == 0 {
                assert(ordered[2].1[0] == text);
            } else {
                assert(ordered[17].1[at - 1] == text);
            }
        }
    }
    if some_section_tells(ordered, key, value) {
        let index = choose|index: int|
            0 <= index < ordered.len() && (#[trigger] ordered[index]).0 == key
                && ordered[index].1.contains(value);
        assert(all[section_place(index)].0 == key);
    }
    if some_section_tells(all, key, value) {
        let index = choose|index: int|
            0 <= index < all.len() && (#[trigger] all[index]).0 == key && all[index].1.contains(
                value,
            );
        if index < 2 {
            assert(ordered[index] == all[index]);
        } else if index < 16 {
            assert(ordered[index + 1] == all[index]);
        } else if ordered[2].1.contains(value) {
            assert(ordered[2].0 == key);
        } else {
            assert(ordered[17].0 == key);
        }
    }
}

/// The place of a section of the file among the parts of the package.
spec fn section_place(index: int) -> int {
    if index < 2 {
        index
    } else if index == 2 || index == 17 {
        16
    } else {
        index - 1
    }
}

/// Each line of a `.PKGINFO` file tells a part of the package, and each part
/// stands on its lines: a value stands behind a key exactly if it belongs to the
/// part of the package under that key.
pub proof fn each_key_tells_its_own_part(package: PackageModel, value: Seq<char>)
    ensures
        has_line(package, "pkgname"@, value) <==> value == package.pkgname,
        has_line(package, "pkgbase"@, value) <==> value == package.pkgbase,
        has_line(package, "pkgver"@, value) <==> value == package.full_version,
        has_line(package, "pkgdesc"@, value) <==> package.description == Some(value),
        has_line(package, "url"@, value) <==> package.url == Some(value),
        has_line(package, "builddate"@, value) <==> value == decimal(package.builddate as nat),
        has_line(package, "packager"@, value) <==> value == package.packager,
        has_line(package, "size"@, value) <==> value == decimal(package.installed_size as nat),
        has_line(package, "arch"@, value) <==> value == package.architecture,
        has_line(package, "license"@, value) <==> package.licenses.contains(value),
        has_line(package, "replaces"@, value) <==> package.replaces.contains(value),
        has_line(package, "conflict"@, value) <==> package.conflicts.contains(value),
        has_line(package, "provides"@, value) <==> package.provides.contains(value),
        has_line(package, "backup"@, value) <==> package.backups.contains(value),
        has_line(package, "depend"@, value) <==> package.depends.contains(value),
        has_line(package, "optdepend"@, value) <==> package.optional_depends.contains(value),
        has_line(package, "xdata"@, "debian-package="@ + package.debian_package),
        has_line(package, "xdata"@, "debian-version="@ + package.debian_version),
        has_line(package, "xdata"@, "debian-architecture="@ + package.debian_architecture),
{
    let all = package_sections(package);
    lemma_package_keys(package);
    lemma_one_section(package, 0, value);
    lemma_one_section(package, 1, value);
    lemma_one_section(package, 2, value);
    lemma_one_section(package, 3, value);
    lemma_one_section(package, 4, value);
    lemma_one_section(package, 5, value);
    lemma_one_section(package, 6, value);
    lemma_one_section(package, 7, value);
    lemma_one_section(package, 8, value);
    lemma_one_section(package, 9, value);
    lemma_one_section(package, 10, value);
    lemma_one_section(package, 11, value);
    lemma_one_section(package, 12, value);
    lemma_one_section(package, 13, value);
    lemma_one_section(package, 14, value);
    lemma_one_section(package, 15, value);
    let origin = all[16].1;
    assert(origin[1] == "debian-package="@ + package.debian_package);
    assert(origin[2] == "debian-version="@ + package.debian_version);
    assert(origin[3] == "debian-architecture="@ + package.debian_architecture);
    lemma_one_section(package, 16, origin[1]);
    lemma_one_section(package, 16, origin[2]);
    lemma_one_section(package, 16, origin[3]);
    lemma_single(package.pkgname, value);
    lemma_single(package.pkgbase, value);
    lemma_single(package.full_version, value);
    lemma_single(decimal(package.builddate as nat), value);
    lemma_single(package.packager, value);
    lemma_single(decimal(package.installed_size as nat), value);
    lemma_single(package.architecture, value);
    if let Some(text) = package.description {
        lemma_single(text, value);
    }
    if let Some(text) = package.url {
        lemma_single(text, value);
    }
}

proof fn lemma_single(text: Seq<char>, value: Seq<char>)
    ensures
        seq![text].contains(value) <==> value == text,
{
    assert(seq![text][0] == text);
}

proof fn lemma_one_section(package: PackageModel, index: int, value: Seq<char>)
    requires
        0 <= index < package_sections(package).len(),
    ensures
        has_line(package, package_sections(package)[index].0, value) <==> package_sections(
            package,
        )[index].1.contains(value),
{
    let all = package_sections(package);
    let key = all[index].0;
    lemma_package_keys(package);
    lemma_package_sections(package, key, value);
    if some_section_tells(all, key, value) {
        let found = choose|found: int|
            0 <= found < all.len() && (#[trigger] all[found]).0 == key && all[found].1.contains(
                value,
            );
        if found < index {
            assert(all[found].0 != all[index].0);
        } else if index < found {
            assert(all[index].0 != all[found].0);
        }
    }
    if all[index].1.contains(value) {
        assert(all[index].0 == key);
    }
}

} // verus!
