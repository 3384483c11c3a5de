//! What an installation promises.

use vstd::prelude::*;
use vstd::utf8::encode_utf8;

use crate::cli::VERSION;
use crate::conversion::pkgbuild_laws::{in_a_row, next_piece, piece_occurs};
use crate::digest::printed_sha256;
use crate::encoding::lossy_text;
use crate::installer::annotations::notes_of;
use crate::installer::installation::{
    agrees, converted_package, helper_fault, installation_answers, is_package_entry,
    next_installation_step, HelperFacts, InstallationEvent, InstallationModel, OutputEntry,
};
use crate::installer::receipt::{receipt_line, receipt_text_of, ReceiptModel};
use crate::installer::review::{is_yes, review_of, review_start, warning_lines, Review};
use crate::lists::lemma_only_one;
use crate::number::decimal;
use crate::paths::name_of;
use crate::pieces::{lines, lower_char, lowercase, occurs_in, trim, words};

verus! {

// ---------------------------------------------------------------------------
// Steps
// ---------------------------------------------------------------------------
/// An installation hands on what it found: the path and the digest of the Debian
/// package, the package and its digest, its name and its version, and the
/// warnings that stand in it.
pub open spec fn hands_on(
    step: InstallationModel,
    event: InstallationEvent,
    next: InstallationModel,
) -> bool {
    match (step, event, next) {
        (
            InstallationModel::Resolve { assume_yes, .. },
            InstallationEvent::Resolved { input, is_file },
            InstallationModel::CheckHelper { input: path, assume_yes: yes },
        ) => is_file && path == input && yes == assume_yes,
        (
            InstallationModel::CheckHelper { input, assume_yes },
            InstallationEvent::Helper(facts),
            InstallationModel::HashSource { input: path, assume_yes: yes },
        ) => is_safe_helper(facts) && path == input && yes == assume_yes,
        (
            InstallationModel::HashSource { input, assume_yes },
            InstallationEvent::Text(output),
            InstallationModel::Convert { input: path, assume_yes: yes, source },
        ) => printed_sha256(output) == Ok::<Seq<char>, Seq<char>>(source) && path == input && yes
            == assume_yes,
        (
            InstallationModel::Convert { input, assume_yes, source },
            InstallationEvent::Ended { code, .. },
            InstallationModel::FindPackage { input: path, assume_yes: yes, source: digest },
        ) => code == Some(0i32) && path == input && yes == assume_yes && digest == source,
        (
            InstallationModel::FindPackage { input, assume_yes, source },
            InstallationEvent::Entries(entries),
            InstallationModel::HashPackage { input: path, assume_yes: yes, source: digest, package },
        ) => is_only_package(entries, package) && path == input && yes == assume_yes && digest
            == source,
        (
            InstallationModel::HashPackage { input, assume_yes, source, package },
            InstallationEvent::Text(output),
            InstallationModel::Identify { assume_yes: yes, package: file, receipt },
        ) => printed_sha256(output) == Ok::<Seq<char>, Seq<char>>(receipt.converted_sha256)
            && receipt.source_path == input && receipt.source_sha256 == source && file == package
            && yes == assume_yes,
        (
            InstallationModel::Identify { assume_yes, package, receipt },
            InstallationEvent::Text(output),
            InstallationModel::Annotate { assume_yes: yes, package: file, receipt: more },
        ) => words(output) == seq![more.package_name, more.package_version] && more.source_path
            == receipt.source_path && more.source_sha256 == receipt.source_sha256
            && more.converted_sha256 == receipt.converted_sha256 && file == package && yes
            == assume_yes,
        (
            InstallationModel::Annotate { assume_yes, package, receipt },
            InstallationEvent::Text(pkginfo),
            InstallationModel::Review { assume_yes: yes, package: file, receipt: kept, warnings },
        ) => notes_of(lines(pkginfo)) is Ok && warnings == notes_of(lines(pkginfo))->Ok_0.warnings
            && notes_of(lines(pkginfo))->Ok_0.source_sha256 == Some(receipt.source_sha256) && kept
            == receipt && file == package && yes == assume_yes,
        (
            InstallationModel::Review { assume_yes, package, receipt, .. },
            InstallationEvent::Answer(answer),
            InstallationModel::Authorize { package: file, receipt: kept },
        ) => agrees(assume_yes, answer) && kept == receipt && file == package,
        (
            InstallationModel::Review { assume_yes, .. },
            InstallationEvent::Answer(answer),
            InstallationModel::Canceled,
        ) => !agrees(assume_yes, answer),
        (
            InstallationModel::Authorize { receipt, .. },
            InstallationEvent::Ended { code, .. },
            InstallationModel::Verify { receipt: kept },
        ) => code == Some(0i32) && kept == receipt,
        (
            InstallationModel::Verify { receipt },
            InstallationEvent::Text(output),
            InstallationModel::Record { receipt: kept },
        ) => kept == receipt && (words(output).len() >= 2 && words(output)[1]
            == receipt.package_version || words(output).len() < 2
            && receipt.package_version.len() == 0),
        _ => false,
    }
}

/// The root helper is a regular file of the system that no one else can write.
pub open spec fn is_safe_helper(facts: HelperFacts) -> bool {
    &&& facts.is_file
    &&& !facts.is_link
    &&& facts.owner == 0
    &&& facts.group == 0
    &&& facts.mode & 0o020 == 0
    &&& facts.mode & 0o002 == 0
}

proof fn lemma_helper(facts: HelperFacts)
    ensures
        helper_fault(facts) is None <==> is_safe_helper(facts),
{
    let mode = facts.mode;
    assert(mode & 0o022 == 0 <==> mode & 0o020 == 0 && mode & 0o002 == 0) by (bit_vector);
}

/// The package is the only one among the entries of a directory.
pub open spec fn is_only_package(entries: Seq<OutputEntry>, package: Seq<u8>) -> bool {
    exists|index: int|
        {
            &&& 0 <= index < entries.len()
            &&& is_package_entry(#[trigger] entries[index])
            &&& entries[index].path@ == package
            &&& forall|other: int|
                0 <= other < entries.len() && other != index ==> !is_package_entry(
                    #[trigger] entries[other],
                )
        }
}

proof fn lemma_only_package(entries: Seq<OutputEntry>)
    ensures
        converted_package(entries) matches Ok(package) ==> is_only_package(entries, package),
{
    let pred = |entry: OutputEntry| is_package_entry(entry);
    lemma_only_one(entries, pred);
    if converted_package(entries) is Ok {
        let index = choose|index: int|
            {
                &&& 0 <= index < entries.len()
                &&& #[trigger] entries[index] == entries.filter(pred)[0]
                &&& pred(entries[index])
                &&& forall|other: int|
                    0 <= other < entries.len() && other != index ==> !pred(#[trigger] entries[other])
            };
        assert(is_package_entry(entries[index]));
        assert forall|other: int| 0 <= other < entries.len() && other != index implies
            !is_package_entry(#[trigger] entries[other]) by {
            assert(!pred(entries[other]));
        }
    }
}

/// Every step of an installation that goes on rests on what it was told, and
/// hands on all that it knows.
#[verifier::spinoff_prover]
pub proof fn installations_hand_on_what_they_found(
    step: InstallationModel,
    event: InstallationEvent,
    next: InstallationModel,
)
    requires
        installation_answers(step, event),
        next_installation_step(step, event) == Ok::<InstallationModel, Seq<char>>(next),
    ensures
        hands_on(step, event, next),
{
    match (step, event) {
        (InstallationModel::CheckHelper { .. }, InstallationEvent::Helper(facts)) => {
            lemma_helper(facts);
        },
        (InstallationModel::FindPackage { .. }, InstallationEvent::Entries(entries)) => {
            lemma_only_package(entries);
        },
        (InstallationModel::Identify { .. }, InstallationEvent::Text(output)) => {
            assert(words(output) =~= seq![words(output)[0], words(output)[1]]);
        },
        _ => {},
    }
}

// ---------------------------------------------------------------------------
// Texts
// ---------------------------------------------------------------------------
proof fn lemma_part_occurs(start: Seq<char>, part: Seq<char>, end: Seq<char>)
    ensures
        occurs_in(part, start + part + end),
{
    let whole = start + part + end;
    let at = start.len() as int;
    assert(whole.subrange(at, at + part.len()) =~= part);
}

proof fn lemma_occurs_further(part: Seq<char>, text: Seq<char>, start: Seq<char>, end: Seq<char>)
    requires
        occurs_in(part, text),
    ensures
        occurs_in(part, start + text + end),
{
    let at = choose|at: int|
        0 <= at && at + part.len() <= text.len() && #[trigger] text.subrange(at, at + part.len())
            == part;
    let whole = start + text + end;
    let place = start.len() + at;
    assert(whole.subrange(place, place + part.len()) =~= part);
}

/// The line that a warning stands on.
pub open spec fn warning_line_of(warning: Seq<char>) -> Seq<char> {
    "  - "@ + warning + "\n"@
}

proof fn lemma_last_warning(warnings: Seq<Seq<char>>)
    requires
        warnings.len() > 0,
    ensures
        warning_lines(warnings) == warning_lines(warnings.drop_last()) + warning_line_of(
            warnings.last(),
        ),
{
    assert(warning_lines(warnings) =~= warning_lines(warnings.drop_last()) + warning_line_of(
        warnings.last(),
    ));
}

proof fn lemma_occurs_before(part: Seq<char>, text: Seq<char>, end: Seq<char>)
    requires
        occurs_in(part, text),
    ensures
        occurs_in(part, text + end),
{
    let none = Seq::<char>::empty();
    lemma_occurs_further(part, text, none, end);
    assert(none + text + end =~= text + end);
}

proof fn lemma_occurs_behind(part: Seq<char>, text: Seq<char>, start: Seq<char>)
    requires
        occurs_in(part, text),
    ensures
        occurs_in(part, start + text),
{
    let none = Seq::<char>::empty();
    lemma_occurs_further(part, text, start, none);
    assert(start + text + none =~= start + text);
}

proof fn lemma_occurs_at_the_end(part: Seq<char>, start: Seq<char>)
    ensures
        occurs_in(part, start + part),
{
    let none = Seq::<char>::empty();
    lemma_part_occurs(start, part, none);
    assert(start + part + none =~= start + part);
}

proof fn lemma_warning_occurs(warnings: Seq<Seq<char>>, index: int)
    requires
        0 <= index < warnings.len(),
    ensures
        occurs_in(warning_line_of(warnings[index]), warning_lines(warnings)),
    decreases warnings.len(),
{
    let before = warning_lines(warnings.drop_last());
    lemma_last_warning(warnings);
    if index < warnings.len() - 1 {
        lemma_warning_occurs(warnings.drop_last(), index);
        lemma_occurs_before(
            warning_line_of(warnings[index]),
            before,
            warning_line_of(warnings.last()),
        );
    } else {
        lemma_occurs_at_the_end(warning_line_of(warnings.last()), before);
    }
}

proof fn lemma_shows_warning(review: Review, index: int)
    requires
        0 <= index < review.warnings@.len(),
    ensures
        occurs_in(warning_line_of(review.warnings.deep_view()[index]), review_of(review)),
{
    let pieces = review_pieces(review);
    let line = warning_line_of(review.warnings.deep_view()[index]);
    lemma_warning_occurs(review.warnings.deep_view(), index);
    lemma_occurs_behind(
        line,
        warning_lines(review.warnings.deep_view()),
        "\nConversion warnings:\n"@,
    );
    lemma_review_pieces(review);
    piece_occurs(pieces, 9);
    lemma_occurs_in_turn(line, pieces[9], review_of(review));
}

proof fn lemma_native_text(name: Seq<char>)
    ensures
        occurs_in(
            "contain a native package named '"@ + name + "'"@,
            "\nWarning: The configured Arch repositories contain a native package named '"@ + name
                + "'.\n"@,
        ),
{
    reveal_strlit("contain a native package named '");
    reveal_strlit("\nWarning: The configured Arch repositories contain a native package named '");
    reveal_strlit("'.\n");
    reveal_strlit("'");
    reveal_strlit(".\n");
    let whole = "\nWarning: The configured Arch repositories contain a native package named '"@;
    let end = "contain a native package named '"@;
    let start = whole.take(whole.len() - end.len());
    let part = end + name + "'"@;
    lemma_part_occurs(start, part, ".\n"@);
    assert(whole =~= start + end);
    assert("'.\n"@ =~= "'"@ + ".\n"@);
    assert(start + part + ".\n"@ =~= whole + name + "'.\n"@);
}

proof fn lemma_shows_native(review: Review)
    requires
        review.has_native_package,
    ensures
        occurs_in(
            "contain a native package named '"@ + review.package_name@ + "'"@,
            review_of(review),
        ),
{
    let pieces = review_pieces(review);
    lemma_native_text(review.package_name@);
    lemma_review_pieces(review);
    piece_occurs(pieces, 7);
    lemma_occurs_in_turn(
        "contain a native package named '"@ + review.package_name@ + "'"@,
        pieces[7],
        review_of(review),
    );
}

/// A review shows the Debian package and its digest, the name and the version of
/// the package, the planned transaction and every warning; it tells of a native
/// package, and of an installed one, where there is one.
pub proof fn reviews_show_what_is_known(review: Review, index: int)
    ensures
        occurs_in("Source       : "@ + review.source@ + "\n"@, review_of(review)),
        occurs_in("Source SHA-256: "@ + review.source_sha256@ + "\n"@, review_of(review)),
        occurs_in(
            "Package      : "@ + review.package_name@ + " "@ + review.package_version@ + "\n"@,
            review_of(review),
        ),
        occurs_in("Package files: "@ + decimal(lines(review.files@).len()) + "\n"@, review_of(review)),
        occurs_in(
            "\nPlanned transaction:\n"@ + trim(review.transaction@) + "\n"@,
            review_of(review),
        ),
        occurs_in(
            "\nPacman package information:\n"@ + trim(review.details@) + "\n"@,
            review_of(review),
        ),
        0 <= index < review.warnings@.len() ==> occurs_in(
            warning_line_of(review.warnings.deep_view()[index]),
            review_of(review),
        ),
        review.has_native_package ==> occurs_in(
            "contain a native package named '"@ + review.package_name@ + "'"@,
            review_of(review),
        ),
        review.installed matches Some(text) ==> occurs_in(
            "Installed now: "@ + trim(text@) + "\n"@,
            review_of(review),
        ),
{
    let pieces = review_pieces(review);
    lemma_review_pieces(review);
    piece_occurs(pieces, 1);
    piece_occurs(pieces, 2);
    piece_occurs(pieces, 3);
    piece_occurs(pieces, 4);
    piece_occurs(pieces, 5);
    piece_occurs(pieces, 6);
    piece_occurs(pieces, 8);
    if 0 <= index < review.warnings@.len() {
        lemma_shows_warning(review, index);
    }
    if review.has_native_package {
        lemma_shows_native(review);
    }
}

proof fn lemma_occurs_in_turn(part: Seq<char>, middle: Seq<char>, whole: Seq<char>)
    requires
        occurs_in(part, middle),
        occurs_in(middle, whole),
    ensures
        occurs_in(part, whole),
{
    let inner = choose|at: int|
        0 <= at && at + part.len() <= middle.len() && #[trigger] middle.subrange(
            at,
            at + part.len(),
        ) == part;
    let outer = choose|at: int|
        0 <= at && at + middle.len() <= whole.len() && #[trigger] whole.subrange(
            at,
            at + middle.len(),
        ) == middle;
    let place = outer + inner;
    assert(whole.subrange(place, place + part.len()) =~= whole.subrange(
        outer,
        outer + middle.len(),
    ).subrange(inner, inner + part.len()));
}

/// The pieces of a review.
spec fn review_pieces(review: Review) -> Seq<Seq<char>> {
    seq![
        "\nDebforge installation review\n"@,
        "Source       : "@ + review.source@ + "\n"@,
        "Source SHA-256: "@ + review.source_sha256@ + "\n"@,
        "Package      : "@ + review.package_name@ + " "@ + review.package_version@ + "\n"@,
        "Package files: "@ + decimal(lines(review.files@).len()) + "\n"@,
        "\nPacman package information:\n"@ + trim(review.details@) + "\n"@,
        "\nPlanned transaction:\n"@ + trim(review.transaction@) + "\n"@,
        if review.has_native_package {
            "\nWarning: The configured Arch repositories contain a native package named '"@
                + review.package_name@ + "'.\n"@
        } else {
            seq![]
        },
        match review.installed {
            Some(text) => "Installed now: "@ + trim(text@) + "\n"@,
            None => seq![],
        },
        if review.warnings@.len() == 0 {
            seq![]
        } else {
            "\nConversion warnings:\n"@ + warning_lines(review.warnings.deep_view())
        },
    ]
}

proof fn lemma_review_pieces(review: Review)
    ensures
        review_of(review) == in_a_row(review_pieces(review)),
{
    let pieces = review_pieces(review);
    assert(pieces.take(0) =~= seq![]);
    next_piece(pieces, 0);
    next_piece(pieces, 1);
    next_piece(pieces, 2);
    next_piece(pieces, 3);
    next_piece(pieces, 4);
    next_piece(pieces, 5);
    next_piece(pieces, 6);
    assert(review_start(review) =~= in_a_row(pieces.take(7)));
    next_piece(pieces, 7);
    next_piece(pieces, 8);
    next_piece(pieces, 9);
    assert(pieces.take(10) =~= pieces);
}

/// A receipt tells the package and its version, the Debian package, both digests
/// and the time of the installation.
pub proof fn receipts_tell_what_was_installed(receipt: ReceiptModel, installed_at: u64)
    ensures
        receipt_text_of(receipt, installed_at) matches Ok(text) ==> {
            &&& occurs_in("package="@ + receipt.package_name + "\n"@, text)
            &&& occurs_in("version="@ + receipt.package_version + "\n"@, text)
            &&& occurs_in("source="@ + lossy_text(receipt.source_path) + "\n"@, text)
            &&& occurs_in("source_sha256="@ + receipt.source_sha256 + "\n"@, text)
            &&& occurs_in("converted_sha256="@ + receipt.converted_sha256 + "\n"@, text)
            &&& occurs_in("installed_at="@ + decimal(installed_at as nat) + "\n"@, text)
        },
{
    if let Ok(text) = receipt_text_of(receipt, installed_at) {
        let pieces = seq![
            receipt_line("format"@, "1"@),
            receipt_line("package"@, receipt.package_name),
            receipt_line("version"@, receipt.package_version),
            receipt_line("source"@, lossy_text(receipt.source_path)),
            receipt_line("source_sha256"@, receipt.source_sha256),
            receipt_line("converted_sha256"@, receipt.converted_sha256),
            receipt_line("debforge_version"@, VERSION@),
            receipt_line("installed_at"@, decimal(installed_at as nat)),
        ];
        let none = Seq::<char>::empty();
        assert(pieces.take(0) =~= seq![]);
        assert(none + pieces[0] =~= pieces[0]);
        next_piece(pieces, 0);
        next_piece(pieces, 1);
        next_piece(pieces, 2);
        next_piece(pieces, 3);
        next_piece(pieces, 4);
        next_piece(pieces, 5);
        next_piece(pieces, 6);
        next_piece(pieces, 7);
        assert(pieces.take(8) =~= pieces);
        assert(text == in_a_row(pieces));
        piece_occurs(pieces, 1);
        piece_occurs(pieces, 2);
        piece_occurs(pieces, 3);
        piece_occurs(pieces, 4);
        piece_occurs(pieces, 5);
        piece_occurs(pieces, 7);
        reveal_strlit("=");
        reveal_strlit("package");
        reveal_strlit("package=");
        reveal_strlit("version");
        reveal_strlit("version=");
        reveal_strlit("source");
        reveal_strlit("source=");
        reveal_strlit("source_sha256");
        reveal_strlit("source_sha256=");
        reveal_strlit("converted_sha256");
        reveal_strlit("converted_sha256=");
        reveal_strlit("installed_at");
        reveal_strlit("installed_at=");
        assert("package="@ =~= "package"@ + "="@);
        assert("version="@ =~= "version"@ + "="@);
        assert("source="@ =~= "source"@ + "="@);
        assert("source_sha256="@ =~= "source_sha256"@ + "="@);
        assert("converted_sha256="@ =~= "converted_sha256"@ + "="@);
        assert("installed_at="@ =~= "installed_at"@ + "="@);
    }
}

// ---------------------------------------------------------------------------
// Packages
// ---------------------------------------------------------------------------
/// A file is taken for the converted package if its name says that it is a package
/// and not one that is still being written.
pub proof fn package_files_are_told_by_their_names(entry: OutputEntry, name: Seq<char>)
    requires
        name_of(entry.path@) == Some(encode_utf8(name)),
    ensures
        is_package_entry(entry) <==> entry.is_file && occurs_in(".pkg.tar."@, name) && !occurs_in(
            ".partial."@,
            name,
        ),
{
    vstd::utf8::encode_utf8_valid_utf8(name);
    vstd::utf8::encode_utf8_decode_utf8(name);
}

// ---------------------------------------------------------------------------
// Consent
// ---------------------------------------------------------------------------
proof fn lemma_letter(character: char, small: char, capital: char)
    requires
        'a' <= small <= 'z',
        'A' <= capital <= 'Z',
        capital as u32 + 32 == small as u32,
    ensures
        lower_char(character) == small <==> character == small || character == capital,
{
    vstd::utf8::char_u32_cast(character, character as u32);
    vstd::utf8::char_u32_cast(small, small as u32);
    vstd::utf8::char_u32_cast(capital, capital as u32);
    if 'A' <= character && character <= 'Z' && lower_char(character) == small {
        assert(character as u32 + 32 == small as u32);
    }
}

/// Consent is the letter `y` or the word `yes`, in any case and with white space
/// around it.  Every other answer, and none, is a refusal.
pub proof fn only_yes_is_consent(answer: Seq<char>)
    ensures
        is_yes(answer) <==> {
            let text = trim(answer);
            &&& text.len() == 1 || text.len() == 3
            &&& text[0] == 'y' || text[0] == 'Y'
            &&& text.len() == 3 ==> (text[1] == 'e' || text[1] == 'E') && (text[2] == 's' || text[2]
                == 'S')
        },
{
    let text = trim(answer);
    let lower = lowercase(text);
    reveal_strlit("y");
    reveal_strlit("yes");
    assert(lower.len() == text.len());
    if text.len() == 1 {
        lemma_letter(text[0], 'y', 'Y');
        assert(lower[0] == lower_char(text[0]));
        if lower[0] == 'y' {
            assert(lower =~= "y"@);
        }
    } else if text.len() == 3 {
        lemma_letter(text[0], 'y', 'Y');
        lemma_letter(text[1], 'e', 'E');
        lemma_letter(text[2], 's', 'S');
        assert(lower[0] == lower_char(text[0]));
        assert(lower[1] == lower_char(text[1]));
        assert(lower[2] == lower_char(text[2]));
        if lower[0] == 'y' && lower[1] == 'e' && lower[2] == 's' {
            assert(lower =~= "yes"@);
        }
    }
}

} // verus!
