//! The notes that a conversion leaves in a package.

use vstd::prelude::*;

use crate::digest::{is_sha256, normalize_sha256, sha256_value};
use crate::error::{outcome, Outcome, Result};
use crate::lists::{push_unique, with_unique};
use crate::pieces::{lines, lowercase, split_lines, texts, trim, trimmed};
use crate::text::{chars, has_prefix, string, strip_prefix};

verus! {

/// The digest of the Debian package and the warnings of its conversion.
#[derive(Debug, Clone, PartialEq, Eq)]
pub struct PackageAnnotations {
    pub source_sha256: Option<String>,
    pub warnings: Vec<String>,
}

/// The mathematical value of [`PackageAnnotations`].
pub struct AnnotationsModel {
    pub source_sha256: Option<Seq<char>>,
    pub warnings: Seq<Seq<char>>,
}

impl DeepView for PackageAnnotations {
    type V = AnnotationsModel;

    open spec fn deep_view(&self) -> AnnotationsModel {
        AnnotationsModel {
            source_sha256: self.source_sha256.deep_view(),
            warnings: self.warnings.deep_view(),
        }
    }
}

impl Default for PackageAnnotations {
    fn default() -> (result: Self)
        ensures
            result.deep_view() == (AnnotationsModel { source_sha256: None, warnings: seq![] }),
    {
        let result = PackageAnnotations { source_sha256: None, warnings: Vec::new() };
        assert(result.deep_view().warnings =~= seq![]);
        result
    }
}

/// The notes with what a value of an extra-data line says.
pub open spec fn with_note(notes: AnnotationsModel, value: Seq<char>) -> Outcome<AnnotationsModel> {
    if has_prefix(value, "debian-sha256="@) {
        match sha256_value(value.skip("debian-sha256="@.len() as int)) {
            Err(message) => Err(message),
            Ok(digest) => Ok(AnnotationsModel { source_sha256: Some(digest), ..notes }),
        }
    } else if has_prefix(value, "debforge-warning="@) {
        let warning = value.skip("debforge-warning="@.len() as int);
        if trim(warning).len() == 0 {
            Ok(notes)
        } else {
            Ok(AnnotationsModel { warnings: with_unique(notes.warnings, warning), ..notes })
        }
    } else {
        Ok(notes)
    }
}

/// The notes on lines of a `.PKGINFO` file.
pub open spec fn notes_of(all_lines: Seq<Seq<char>>) -> Outcome<AnnotationsModel>
    decreases all_lines.len(),
{
    if all_lines.len() == 0 {
        Ok(AnnotationsModel { source_sha256: None, warnings: seq![] })
    } else {
        match notes_of(all_lines.drop_last()) {
            Err(message) => Err(message),
            Ok(notes) => if has_prefix(all_lines.last(), "xdata = "@) {
                with_note(notes, all_lines.last().skip("xdata = "@.len() as int))
            } else {
                Ok(notes)
            },
        }
    }
}

proof fn lemma_notes_prefix(all_lines: Seq<Seq<char>>, length: int)
    requires
        0 <= length <= all_lines.len(),
        notes_of(all_lines.take(length)) is Err,
    ensures
        notes_of(all_lines) == notes_of(all_lines.take(length)),
    decreases all_lines.len(),
{
    if length < all_lines.len() {
        assert(all_lines.drop_last().take(length) == all_lines.take(length));
        lemma_notes_prefix(all_lines.drop_last(), length);
    } else {
        assert(all_lines.take(length) == all_lines);
    }
}

fn add_note(notes: &mut PackageAnnotations, value: &[char]) -> (result: Result<()>)
    ensures
        match result {
            Ok(_) => with_note(old(notes).deep_view(), value@) == Ok::<
                AnnotationsModel,
                Seq<char>,
            >(final(notes).deep_view()),
            Err(error) => with_note(old(notes).deep_view(), value@) == Err::<
                AnnotationsModel,
                Seq<char>,
            >(error@),
        },
{
    if let Some(digest) = strip_prefix(value, "debian-sha256=") {
        let digest = string(digest);
        let normal = normalize_sha256(digest.as_str())?;
        notes.source_sha256 = Some(normal);
    } else if let Some(warning) = strip_prefix(value, "debforge-warning=") {
        if trimmed(warning).len() > 0 {
            push_unique(&mut notes.warnings, string(warning));
        }
    }
    Ok(())
}

/// Read the notes from a `.PKGINFO` file.
pub fn parse_annotations(pkginfo: &str) -> (result: Result<PackageAnnotations>)
    ensures
        outcome(result) == notes_of(lines(pkginfo@)),
{
    let characters = chars(pkginfo);
    let all_lines = split_lines(characters.as_slice());
    let ghost all = texts(all_lines@);
    let mut notes = PackageAnnotations::default();
    for index in 0..all_lines.len()
        invariant
            all == texts(all_lines@),
            all == lines(pkginfo@),
            notes_of(all.take(index as int)) == Ok::<AnnotationsModel, Seq<char>>(
                notes.deep_view(),
            ),
    {
        let line = all_lines[index];
        proof {
            assert(all.take(index + 1).drop_last() == all.take(index as int));
            assert(all.take(index + 1).last() == line@);
            if notes_of(all.take(index + 1)) is Err {
                lemma_notes_prefix(all, index + 1);
            }
        }
        if let Some(value) = strip_prefix(line, "xdata = ") {
            add_note(&mut notes, value)?;
        }
    }
    assert(all.take(all.len() as int) == all);
    Ok(notes)
}

/// The warnings of a conversion are listed once.
pub proof fn annotation_warnings_are_unique(all_lines: Seq<Seq<char>>)
    ensures
        notes_of(all_lines) matches Ok(notes) ==> notes.warnings.no_duplicates(),
    decreases all_lines.len(),
{
    if all_lines.len() > 0 {
        annotation_warnings_are_unique(all_lines.drop_last());
    }
}

// ---------------------------------------------------------------------------
// Writing
// ---------------------------------------------------------------------------
/// The line that names the digest of the Debian package.
pub open spec fn digest_line(digest: Seq<char>) -> Seq<char> {
    "xdata = "@ + ("debian-sha256="@ + digest)
}

/// The line that holds a warning.
pub open spec fn warning_line(warning: Seq<char>) -> Seq<char> {
    "xdata = "@ + ("debforge-warning="@ + warning)
}

/// The lines of a `.PKGINFO` file that hold notes.
pub open spec fn note_lines(notes: AnnotationsModel) -> Seq<Seq<char>> {
    let first = match notes.source_sha256 {
        Some(digest) => seq![digest_line(digest)],
        None => seq![],
    };
    first + notes.warnings.map_values(|warning: Seq<char>| warning_line(warning))
}

/// Write notes as lines of a `.PKGINFO` file.
pub fn annotation_lines(notes: &PackageAnnotations) -> (result: Vec<String>)
    ensures
        result.deep_view() == note_lines(notes.deep_view()),
{
    let ghost all = notes.deep_view();
    let mut written: Vec<String> = Vec::new();
    let ghost first = match all.source_sha256 {
        Some(digest) => seq![digest_line(digest)],
        None => seq![],
    };
    let ghost rest = all.warnings.map_values(|warning: Seq<char>| warning_line(warning));
    if let Some(digest) = &notes.source_sha256 {
        let value = String::from_str("debian-sha256=").concat(digest.as_str());
        written.push(String::from_str("xdata = ").concat(value.as_str()));
    }
    assert(written.deep_view() =~= first + rest.take(0));
    for index in 0..notes.warnings.len()
        invariant
            all == notes.deep_view(),
            rest == all.warnings.map_values(|warning: Seq<char>| warning_line(warning)),
            written.deep_view() == first + rest.take(index as int),
    {
        let ghost before = written.deep_view();
        let value = String::from_str("debforge-warning=").concat(notes.warnings[index].as_str());
        let line = String::from_str("xdata = ").concat(value.as_str());
        written.push(line);
        assert(written.deep_view() =~= before.push(line@));
        assert(rest[index as int] == line@);
        assert(first + rest.take(index + 1) =~= before.push(rest[index as int]));
    }
    assert(rest.take(rest.len() as int) == rest);
    written
}

proof fn lemma_prefixed(prefix: Seq<char>, rest: Seq<char>)
    ensures
        has_prefix(prefix + rest, prefix),
        (prefix + rest).skip(prefix.len() as int) == rest,
{
    assert((prefix + rest).take(prefix.len() as int) =~= prefix);
    assert((prefix + rest).skip(prefix.len() as int) =~= rest);
}

proof fn lemma_warnings_are_read(
    before: Seq<Seq<char>>,
    notes: AnnotationsModel,
    warnings: Seq<Seq<char>>,
)
    requires
        notes_of(before) == Ok::<AnnotationsModel, Seq<char>>(notes),
        (notes.warnings + warnings).no_duplicates(),
        forall|index: int|
            0 <= index < warnings.len() ==> trim(#[trigger] warnings[index]).len() > 0,
    ensures
        notes_of(before + warnings.map_values(|warning: Seq<char>| warning_line(warning))) == Ok::<
            AnnotationsModel,
            Seq<char>,
        >(AnnotationsModel { warnings: notes.warnings + warnings, ..notes }),
    decreases warnings.len(),
{
    let written = warnings.map_values(|warning: Seq<char>| warning_line(warning));
    if warnings.len() == 0 {
        assert(before + written =~= before);
        assert(notes.warnings + warnings =~= notes.warnings);
    } else {
        let rest = warnings.drop_last();
        let last = warnings.last();
        assert((notes.warnings + rest).no_duplicates()) by {
            assert(notes.warnings + rest =~= (notes.warnings + warnings).drop_last());
        }
        lemma_warnings_are_read(before, notes, rest);
        let rest_written = rest.map_values(|warning: Seq<char>| warning_line(warning));
        assert((before + written).drop_last() =~= before + rest_written);
        assert((before + written).last() == warning_line(last));
        lemma_prefixed("xdata = "@, "debforge-warning="@ + last);
        lemma_prefixed("debforge-warning="@, last);
        let value = "debforge-warning="@ + last;
        assert(!has_prefix(value, "debian-sha256="@)) by {
            reveal_strlit("debforge-warning=");
            reveal_strlit("debian-sha256=");
            assert(value[3] == 'f');
            assert("debian-sha256="@[3] == 'i');
            assert(value.take("debian-sha256="@.len() as int)[3] == value[3]);
        }
        assert(!(notes.warnings + rest).contains(last)) by {
            let all = notes.warnings + warnings;
            if (notes.warnings + rest).contains(last) {
                let at = choose|at: int|
                    0 <= at < (notes.warnings + rest).len() && (notes.warnings + rest)[at] == last;
                assert(all[at] == (notes.warnings + rest)[at]);
                assert(all[all.len() - 1] == last);
            }
        }
        assert(notes.warnings + warnings =~= (notes.warnings + rest).push(last));
    }
}

/// Notes with a normalized digest and with distinct warnings that are not
/// blank are read back as they were written, behind lines without notes.
pub proof fn notes_are_read_behind_other_lines(before: Seq<Seq<char>>, notes: AnnotationsModel)
    requires
        notes_of(before) == Ok::<AnnotationsModel, Seq<char>>(
            AnnotationsModel { source_sha256: None, warnings: seq![] },
        ),
        notes.source_sha256 matches Some(digest) ==> is_sha256(digest) && lowercase(digest)
            == digest,
        notes.warnings.no_duplicates(),
        forall|index: int|
            0 <= index < notes.warnings.len() ==> trim(#[trigger] notes.warnings[index]).len() > 0,
    ensures
        notes_of(before + note_lines(notes)) == Ok::<AnnotationsModel, Seq<char>>(notes),
{
    let nothing = AnnotationsModel { source_sha256: None, warnings: seq![] };
    let written = notes.warnings.map_values(|warning: Seq<char>| warning_line(warning));
    assert(seq![] + notes.warnings =~= notes.warnings);
    match notes.source_sha256 {
        None => {
            lemma_warnings_are_read(before, nothing, notes.warnings);
            assert(before + note_lines(notes) =~= before + written);
        },
        Some(digest) => {
            let first = before.push(digest_line(digest));
            lemma_prefixed("xdata = "@, "debian-sha256="@ + digest);
            lemma_prefixed("debian-sha256="@, digest);
            assert(first.drop_last() =~= before);
            assert(first.last() == digest_line(digest));
            lemma_warnings_are_read(
                first,
                AnnotationsModel { source_sha256: Some(digest), ..nothing },
                notes.warnings,
            );
            assert(before + note_lines(notes) =~= first + written);
        },
    }
}

/// A note of a warning adds the warning, unless it is blank or known already.
pub proof fn blank_warnings_are_left_out(notes: AnnotationsModel, warning: Seq<char>)
    ensures
        with_note(notes, "debforge-warning="@ + warning) matches Ok(after) && {
            &&& after.source_sha256 == notes.source_sha256
            &&& trim(warning).len() == 0 ==> after == notes
            &&& trim(warning).len() > 0 ==> after.warnings == with_unique(notes.warnings, warning)
        },
{
    let start = "debforge-warning="@;
    let value = start + warning;
    reveal_strlit("debforge-warning=");
    reveal_strlit("debian-sha256=");
    assert(value.take(start.len() as int) =~= start);
    assert(value.skip(start.len() as int) =~= warning);
    if has_prefix(value, "debian-sha256="@) {
        assert(value.take(14)[3] == value[3]);
        assert("debian-sha256="@[3] == 'i');
        assert(value[3] == 'f');
    }
}

} // verus!
