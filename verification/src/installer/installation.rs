//! The installation of a Debian package, one step at a time.

use vstd::prelude::*;
use vstd::utf8::{decode_utf8, valid_utf8};

use crate::bytes::copy;
use crate::cli::InstallOptions;
use crate::digest::{printed_sha256, sha256_file};
use crate::encoding::{decode, lemma_decoded, lossy_text};
use crate::error::{failure, outcome, AppError, Outcome, Result};
use crate::installer::annotations::{notes_of, parse_annotations};
use crate::installer::receipt::{InstallReceipt, ReceiptModel};
use crate::installer::review::{is_affirmative, is_yes, PRIVILEGED_HELPER};
use crate::paths::{display, file_name, name_of};
use crate::pieces::{contains_text, lines, occurs_in, split_words, texts, words};
use crate::text::{alphanumeric, chars, equal, is_alphanumeric, string};

verus! {

// ---------------------------------------------------------------------------
// Checks
// ---------------------------------------------------------------------------
/// What is known of the root helper.
#[derive(Debug, Clone, Copy, PartialEq, Eq)]
pub struct HelperFacts {
    pub is_link: bool,
    pub is_file: bool,
    pub owner: u32,
    pub group: u32,
    pub mode: u32,
}

/// The fault of the root helper.
pub open spec fn helper_fault(facts: HelperFacts) -> Option<Seq<char>> {
    if facts.is_link || !facts.is_file {
        Some(
            "The secure installation helper is not a regular file: "@ + PRIVILEGED_HELPER@,
        )
    } else if facts.owner != 0 || facts.group != 0 || facts.mode & 0o022 != 0 {
        Some(
            "The secure installation helper must have root ownership and must not be writable by other users."@,
        )
    } else {
        None
    }
}

/// Require a root helper that only root can change.
pub fn verify_helper(facts: &HelperFacts) -> (result: Result<()>)
    ensures
        outcome(result) == match helper_fault(*facts) {
            Some(message) => Err::<(), Seq<char>>(message),
            None => Ok(()),
        },
{
    if facts.is_link || !facts.is_file {
        return Err(
            AppError::new(
                String::from_str("The secure installation helper is not a regular file: ").concat(
                    PRIVILEGED_HELPER,
                ),
            ),
        );
    }
    if facts.owner != 0 || facts.group != 0 || facts.mode & 0o022 != 0 {
        return Err(
            failure(
                "The secure installation helper must have root ownership and must not be writable by other users.",
            ),
        );
    }
    Ok(())
}

/// An entry of the output directory of a conversion.
#[derive(Debug, Clone, PartialEq, Eq)]
pub struct OutputEntry {
    pub path: Vec<u8>,
    pub is_file: bool,
}

/// The entry is a complete package.
pub open spec fn is_package_entry(entry: OutputEntry) -> bool {
    &&& entry.is_file
    &&& name_of(entry.path@) matches Some(name) && valid_utf8(name) && occurs_in(
        ".pkg.tar."@,
        decode_utf8(name),
    ) && !occurs_in(".partial."@, decode_utf8(name))
}

/// The packages among the entries of an output directory.
pub open spec fn package_entries(entries: Seq<OutputEntry>) -> Seq<OutputEntry> {
    entries.filter(|entry: OutputEntry| is_package_entry(entry))
}

/// The one package in an output directory.
pub open spec fn converted_package(entries: Seq<OutputEntry>) -> Outcome<Seq<u8>> {
    let packages = package_entries(entries);
    if packages.len() == 1 {
        Ok(packages[0].path@)
    } else if packages.len() == 0 {
        Err("The conversion did not create an installable Arch package."@)
    } else {
        Err("The conversion created more than one Arch package. Installation stopped."@)
    }
}

fn package_entry(entry: &OutputEntry) -> (result: bool)
    ensures
        result == is_package_entry(*entry),
{
    if !entry.is_file {
        return false;
    }
    match file_name(entry.path.as_slice()) {
        None => false,
        Some(name) => match decode(name) {
            Err(_) => false,
            Ok(text) => {
                proof {
                    lemma_decoded(text@, name@);
                }
                let characters = chars(text.as_str());
                contains_text(characters.as_slice(), ".pkg.tar.") && !contains_text(
                    characters.as_slice(),
                    ".partial.",
                )
            },
        },
    }
}

/// Find the one package in an output directory.
pub fn find_converted_package(entries: &Vec<OutputEntry>) -> (result: Result<Vec<u8>>)
    ensures
        match result {
            Ok(package) => converted_package(entries@) == Ok::<Seq<u8>, Seq<char>>(package@),
            Err(error) => converted_package(entries@) == Err::<Seq<u8>, Seq<char>>(error@),
        },
{
    let mut places: Vec<usize> = Vec::new();
    assert(package_entries(entries@.take(0)) =~= seq![]) by {
        reveal(Seq::filter);
    }
    for index in 0..entries.len()
        invariant
            places@.len() == package_entries(entries@.take(index as int)).len(),
            forall|at: int|
                0 <= at < places@.len() ==> (#[trigger] places@[at]) < index
                    && entries@[places@[at] as int] == package_entries(
                    entries@.take(index as int),
                )[at],
    {
        proof {
            assert(entries@.take(index + 1).drop_last() == entries@.take(index as int));
            assert(entries@.take(index + 1).last() == entries@[index as int]);
            reveal(Seq::filter);
        }
        if package_entry(&entries[index]) {
            places.push(index);
        }
    }
    assert(entries@.take(entries@.len() as int) == entries@);
    if places.len() == 1 {
        Ok(copy(entries[places[0]].path.as_slice()))
    } else if places.len() == 0 {
        Err(failure("The conversion did not create an installable Arch package."))
    } else {
        Err(failure("The conversion created more than one Arch package. Installation stopped."))
    }
}

/// A character of a safe package name.
pub open spec fn is_safe_character(character: char) -> bool {
    ||| is_alphanumeric(character)
    ||| character == '+'
    ||| character == '-'
    ||| character == '.'
    ||| character == '_'
}

/// The text can be a part of a file name.
pub open spec fn is_safe_component(text: Seq<char>) -> bool {
    text.len() > 0 && forall|index: int|
        0 <= index < text.len() ==> is_safe_character(#[trigger] text[index])
}

fn is_safe_package_component(text: &[char]) -> (result: bool)
    ensures
        result == is_safe_component(text@),
{
    if text.len() == 0 {
        return false;
    }
    for index in 0..text.len()
        invariant
            forall|at: int| 0 <= at < index ==> is_safe_character(#[trigger] text@[at]),
    {
        let character = text[index];
        if !(alphanumeric(character) || character == '+' || character == '-' || character == '.'
            || character == '_') {
            assert(!is_safe_character(text@[index as int]));
            return false;
        }
    }
    true
}

/// The name and the version that `pacman -Qp` prints.
pub open spec fn identity_of_output(output: Seq<char>) -> Outcome<(Seq<char>, Seq<char>)> {
    let fields = words(output);
    if fields.len() == 0 || !is_safe_component(fields[0]) {
        Err("Pacman returned an invalid package name."@)
    } else if fields.len() == 1 {
        Err("Pacman returned an invalid package version."@)
    } else if fields.len() > 2 {
        Err("Pacman returned an invalid package identity."@)
    } else {
        Ok((fields[0], fields[1]))
    }
}

/// Read the name and the version that `pacman -Qp` prints.
pub fn query_package_identity(output: &str) -> (result: Result<(String, String)>)
    ensures
        match result {
            Ok((name, version)) => identity_of_output(output@) == Ok::<
                (Seq<char>, Seq<char>),
                Seq<char>,
            >((name@, version@)),
            Err(error) => identity_of_output(output@) == Err::<(Seq<char>, Seq<char>), Seq<char>>(
                error@,
            ),
        },
{
    let characters = chars(output);
    let fields = split_words(characters.as_slice());
    let ghost all = texts(fields@);
    assert(all.len() == fields@.len());
    if fields.len() == 0 {
        return Err(failure("Pacman returned an invalid package name."));
    }
    assert(all[0] == fields@[0]@);
    if !is_safe_package_component(fields[0]) {
        return Err(failure("Pacman returned an invalid package name."));
    }
    if fields.len() == 1 {
        return Err(failure("Pacman returned an invalid package version."));
    }
    if fields.len() > 2 {
        return Err(failure("Pacman returned an invalid package identity."));
    }
    assert(all[1] == fields@[1]@);
    Ok((string(fields[0]), string(fields[1])))
}

/// The version that `pacman -Q` prints, empty when there is none.
pub open spec fn printed_version(output: Seq<char>) -> Seq<char> {
    if words(output).len() < 2 {
        seq![]
    } else {
        words(output)[1]
    }
}

/// Require that pacman installed the expected version.
pub fn verify_installed(output: &str, expected: &str) -> (result: Result<()>)
    ensures
        outcome(result) == if printed_version(output@) == expected@ {
            Ok::<(), Seq<char>>(())
        } else {
            Err(
                "Pacman installed version '"@ + printed_version(output@)
                    + "', but Debforge expected '"@ + expected@ + "'."@,
            )
        },
{
    let characters = chars(output);
    let fields = split_words(characters.as_slice());
    let ghost all = texts(fields@);
    assert(all.len() == fields@.len());
    let actual = if fields.len() < 2 {
        let nothing = String::from_str("");
        assert(nothing@ =~= seq![]) by {
            reveal_strlit("");
        }
        nothing
    } else {
        assert(all[1] == fields@[1]@);
        string(fields[1])
    };
    if equal(actual.as_str(), expected) {
        Ok(())
    } else {
        Err(
            AppError::new(
                String::from_str("Pacman installed version '").concat(actual.as_str()).concat(
                    "', but Debforge expected '",
                ).concat(expected).concat("'."),
            ),
        )
    }
}

/// The fault of the root helper's run.
pub open spec fn authorization_fault(code: Option<i32>, status: Seq<char>) -> Option<Seq<char>> {
    match code {
        Some(0i32) => None,
        Some(126i32) => Some("Authorization was canceled."@),
        Some(127i32) => Some("Authorization was not available."@),
        _ => Some("The Pacman transaction failed with status "@ + status + "."@),
    }
}

/// Require that the root helper installed the package.  `status` describes how
/// it ended.
pub fn run_privileged_install(code: Option<i32>, status: &str) -> (result: Result<()>)
    ensures
        outcome(result) == match authorization_fault(code, status@) {
            Some(message) => Err::<(), Seq<char>>(message),
            None => Ok(()),
        },
{
    if let Some(code) = code {
        if code == 0 {
            return Ok(());
        }
        if code == 126 {
            return Err(failure("Authorization was canceled."));
        }
        if code == 127 {
            return Err(failure("Authorization was not available."));
        }
    }
    Err(
        AppError::new(
            String::from_str("The Pacman transaction failed with status ").concat(status).concat(
                ".",
            ),
        ),
    )
}

// ---------------------------------------------------------------------------
// Steps
// ---------------------------------------------------------------------------
/// The step of an installation that is to be made next.
pub enum InstallationModel {
    /// Resolve the path of the Debian package.
    Resolve { path: Seq<u8>, assume_yes: bool },
    /// Look at the root helper and the required tools.
    CheckHelper { input: Seq<u8>, assume_yes: bool },
    /// Hash the Debian package.
    HashSource { input: Seq<u8>, assume_yes: bool },
    /// Convert the Debian package in a private workspace.
    Convert { input: Seq<u8>, assume_yes: bool, source: Seq<char> },
    /// Look at the output of the conversion.
    FindPackage { input: Seq<u8>, assume_yes: bool, source: Seq<char> },
    /// Hash the package.
    HashPackage { input: Seq<u8>, assume_yes: bool, source: Seq<char>, package: Seq<u8> },
    /// Ask pacman for the name and the version of the package.
    Identify { assume_yes: bool, package: Seq<u8>, receipt: ReceiptModel },
    /// Read the metadata of the package.
    Annotate { assume_yes: bool, package: Seq<u8>, receipt: ReceiptModel },
    /// Show a review, and ask the user unless they agreed beforehand.
    Review {
        assume_yes: bool,
        package: Seq<u8>,
        receipt: ReceiptModel,
        warnings: Seq<Seq<char>>,
    },
    /// Run the root helper on the package and its digest.
    Authorize { package: Seq<u8>, receipt: ReceiptModel },
    /// Ask pacman for the installed version.
    Verify { receipt: ReceiptModel },
    /// Write the receipt.
    Record { receipt: ReceiptModel },
    /// The user did not agree.
    Canceled,
}

/// The step of an installation that is to be made next.
#[derive(Debug, Clone, PartialEq, Eq)]
pub enum Installation {
    /// Resolve the path of the Debian package.
    Resolve { path: Vec<u8>, assume_yes: bool },
    /// Look at the root helper and the required tools.
    CheckHelper { input: Vec<u8>, assume_yes: bool },
    /// Hash the Debian package.
    HashSource { input: Vec<u8>, assume_yes: bool },
    /// Convert the Debian package in a private workspace.
    Convert { input: Vec<u8>, assume_yes: bool, source: String },
    /// Look at the output of the conversion.
    FindPackage { input: Vec<u8>, assume_yes: bool, source: String },
    /// Hash the package.
    HashPackage { input: Vec<u8>, assume_yes: bool, source: String, package: Vec<u8> },
    /// Ask pacman for the name and the version of the package.
    Identify { assume_yes: bool, package: Vec<u8>, receipt: InstallReceipt },
    /// Read the metadata of the package.
    Annotate { assume_yes: bool, package: Vec<u8>, receipt: InstallReceipt },
    /// Show a review, and ask the user unless they agreed beforehand.
    Review {
        assume_yes: bool,
        package: Vec<u8>,
        receipt: InstallReceipt,
        warnings: Vec<String>,
    },
    /// Run the root helper on the package and its digest.
    Authorize { package: Vec<u8>, receipt: InstallReceipt },
    /// Ask pacman for the installed version.
    Verify { receipt: InstallReceipt },
    /// Write the receipt.
    Record { receipt: InstallReceipt },
    /// The user did not agree.
    Canceled,
}

impl DeepView for Installation {
    type V = InstallationModel;

    open spec fn deep_view(&self) -> InstallationModel {
        match self {
            Installation::Resolve { path, assume_yes } => InstallationModel::Resolve {
                path: path@,
                assume_yes: *assume_yes,
            },
            Installation::CheckHelper { input, assume_yes } => InstallationModel::CheckHelper {
                input: input@,
                assume_yes: *assume_yes,
            },
            Installation::HashSource { input, assume_yes } => InstallationModel::HashSource {
                input: input@,
                assume_yes: *assume_yes,
            },
            Installation::Convert { input, assume_yes, source } => InstallationModel::Convert {
                input: input@,
                assume_yes: *assume_yes,
                source: source@,
            },
            Installation::FindPackage { input, assume_yes, source } =>
            InstallationModel::FindPackage {
                input: input@,
                assume_yes: *assume_yes,
                source: source@,
            },
            Installation::HashPackage { input, assume_yes, source, package } =>
            InstallationModel::HashPackage {
                input: input@,
                assume_yes: *assume_yes,
                source: source@,
                package: package@,
            },
            Installation::Identify { assume_yes, package, receipt } =>
            InstallationModel::Identify {
                assume_yes: *assume_yes,
                package: package@,
                receipt: receipt.deep_view(),
            },
            Installation::Annotate { assume_yes, package, receipt } =>
            InstallationModel::Annotate {
                assume_yes: *assume_yes,
                package: package@,
                receipt: receipt.deep_view(),
            },
            Installation::Review { assume_yes, package, receipt, warnings } =>
            InstallationModel::Review {
                assume_yes: *assume_yes,
                package: package@,
                receipt: receipt.deep_view(),
                warnings: warnings.deep_view(),
            },
            Installation::Authorize { package, receipt } => InstallationModel::Authorize {
                package: package@,
                receipt: receipt.deep_view(),
            },
            Installation::Verify { receipt } => InstallationModel::Verify {
                receipt: receipt.deep_view(),
            },
            Installation::Record { receipt } => InstallationModel::Record {
                receipt: receipt.deep_view(),
            },
            Installation::Canceled => InstallationModel::Canceled,
        }
    }
}

/// What a step gave.
pub enum InstallationEvent {
    Resolved { input: Seq<u8>, is_file: bool },
    Helper(HelperFacts),
    Text(Seq<char>),
    Ended { code: Option<i32>, status: Seq<char> },
    Entries(Seq<OutputEntry>),
    Answer(Option<Seq<char>>),
}

/// What a step gave.
#[derive(Debug, Clone, PartialEq, Eq)]
pub enum InstallationReply {
    /// The resolved path, and whether it is a regular file.
    Resolved { input: Vec<u8>, is_file: bool },
    /// What the root helper is.
    Helper(HelperFacts),
    /// What a command printed.
    Text(String),
    /// How a command ended.
    Ended { code: Option<i32>, status: String },
    /// The entries of the output directory.
    Entries(Vec<OutputEntry>),
    /// The answer of the user, if they were asked.
    Answer(Option<String>),
}

impl DeepView for InstallationReply {
    type V = InstallationEvent;

    open spec fn deep_view(&self) -> InstallationEvent {
        match self {
            InstallationReply::Resolved { input, is_file } => InstallationEvent::Resolved {
                input: input@,
                is_file: *is_file,
            },
            InstallationReply::Helper(facts) => InstallationEvent::Helper(*facts),
            InstallationReply::Text(text) => InstallationEvent::Text(text@),
            InstallationReply::Ended { code, status } => InstallationEvent::Ended {
                code: *code,
                status: status@,
            },
            InstallationReply::Entries(entries) => InstallationEvent::Entries(entries@),
            InstallationReply::Answer(answer) => InstallationEvent::Answer(answer.deep_view()),
        }
    }
}

/// The event can come of the step.
pub open spec fn installation_answers(step: InstallationModel, event: InstallationEvent) -> bool {
    match step {
        InstallationModel::Resolve { .. } => event is Resolved,
        InstallationModel::CheckHelper { .. } => event is Helper,
        InstallationModel::HashSource { .. } => event is Text,
        InstallationModel::Convert { .. } => event is Ended,
        InstallationModel::FindPackage { .. } => event is Entries,
        InstallationModel::HashPackage { .. } => event is Text,
        InstallationModel::Identify { .. } => event is Text,
        InstallationModel::Annotate { .. } => event is Text,
        InstallationModel::Review { .. } => event is Answer,
        InstallationModel::Authorize { .. } => event is Ended,
        InstallationModel::Verify { .. } => event is Text,
        InstallationModel::Record { .. } => false,
        InstallationModel::Canceled => false,
    }
}

/// The user agrees to the installation.
pub open spec fn agrees(assume_yes: bool, answer: Option<Seq<char>>) -> bool {
    assume_yes || (answer matches Some(text) && is_yes(text))
}

/// The step after another step gave an event.
pub open spec fn next_installation_step(step: InstallationModel, event: InstallationEvent) -> Outcome<
    InstallationModel,
> {
    match (step, event) {
        (
            InstallationModel::Resolve { assume_yes, .. },
            InstallationEvent::Resolved { input, is_file },
        ) => if is_file {
            Ok(InstallationModel::CheckHelper { input, assume_yes })
        } else {
            Err(
                "The selected Debian package is not a regular file: "@ + lossy_text(input),
            )
        },
        (
            InstallationModel::CheckHelper { input, assume_yes },
            InstallationEvent::Helper(facts),
        ) => match helper_fault(facts) {
            Some(message) => Err(message),
            None => Ok(InstallationModel::HashSource { input, assume_yes }),
        },
        (InstallationModel::HashSource { input, assume_yes }, InstallationEvent::Text(output)) =>
        match printed_sha256(output) {
            Err(message) => Err(message),
            Ok(source) => Ok(InstallationModel::Convert { input, assume_yes, source }),
        },
        (
            InstallationModel::Convert { input, assume_yes, source },
            InstallationEvent::Ended { code, status },
        ) => if code == Some(0i32) {
            Ok(InstallationModel::FindPackage { input, assume_yes, source })
        } else {
            Err(
                "Debforge could not convert the selected package (status "@ + status + ")."@,
            )
        },
        (
            InstallationModel::FindPackage { input, assume_yes, source },
            InstallationEvent::Entries(entries),
        ) => match converted_package(entries) {
            Err(message) => Err(message),
            Ok(package) => Ok(
                InstallationModel::HashPackage { input, assume_yes, source, package },
            ),
        },
        (
            InstallationModel::HashPackage { input, assume_yes, source, package },
            InstallationEvent::Text(output),
        ) => match printed_sha256(output) {
            Err(message) => Err(message),
            Ok(converted) => Ok(
                InstallationModel::Identify {
                    assume_yes,
                    package,
                    receipt: ReceiptModel {
                        package_name: seq![],
                        package_version: seq![],
                        source_path: input,
                        source_sha256: source,
                        converted_sha256: converted,
                    },
                },
            ),
        },
        (
            InstallationModel::Identify { assume_yes, package, receipt },
            InstallationEvent::Text(output),
        ) => match identity_of_output(output) {
            Err(message) => Err(message),
            Ok((package_name, package_version)) => Ok(
                InstallationModel::Annotate {
                    assume_yes,
                    package,
                    receipt: ReceiptModel { package_name, package_version, ..receipt },
                },
            ),
        },
        (
            InstallationModel::Annotate { assume_yes, package, receipt },
            InstallationEvent::Text(pkginfo),
        ) => match notes_of(lines(pkginfo)) {
            Err(message) => Err(message),
            Ok(notes) => if notes.source_sha256 == Some(receipt.source_sha256) {
                Ok(
                    InstallationModel::Review {
                        assume_yes,
                        package,
                        receipt,
                        warnings: notes.warnings,
                    },
                )
            } else {
                Err(
                    "The converted package does not contain the expected Debian source digest."@,
                )
            },
        },
        (
            InstallationModel::Review { assume_yes, package, receipt, .. },
            InstallationEvent::Answer(answer),
        ) => if agrees(assume_yes, answer) {
            Ok(InstallationModel::Authorize { package, receipt })
        } else {
            Ok(InstallationModel::Canceled)
        },
        (
            InstallationModel::Authorize { receipt, .. },
            InstallationEvent::Ended { code, status },
        ) => match authorization_fault(code, status) {
            Some(message) => Err(message),
            None => Ok(InstallationModel::Verify { receipt }),
        },
        (InstallationModel::Verify { receipt }, InstallationEvent::Text(output)) =>
        if printed_version(output) == receipt.package_version {
            Ok(InstallationModel::Record { receipt })
        } else {
            Err(
                "Pacman installed version '"@ + printed_version(output)
                    + "', but Debforge expected '"@ + receipt.package_version + "'."@,
            )
        },
        (other, _) => Ok(other),
    }
}

/// Start the installation of a Debian package.
pub fn install(options: &InstallOptions) -> (result: Installation)
    ensures
        result.deep_view() == (InstallationModel::Resolve {
            path: options.input@,
            assume_yes: options.assume_yes,
        }),
{
    Installation::Resolve {
        path: copy(options.input.as_slice()),
        assume_yes: options.assume_yes,
    }
}

fn has_source(notes_digest: &Option<String>, expected: &str) -> (result: bool)
    ensures
        result == (notes_digest.deep_view() == Some(expected@)),
{
    match notes_digest {
        Some(digest) => equal(digest.as_str(), expected),
        None => false,
    }
}

fn user_agrees(assume_yes: bool, answer: &Option<String>) -> (result: bool)
    ensures
        result == agrees(assume_yes, answer.deep_view()),
{
    if assume_yes {
        return true;
    }
    match answer {
        Some(text) => is_affirmative(text.as_str()),
        None => false,
    }
}

impl Installation {
    /// Go on after the step was made.
    pub fn advance(self, reply: InstallationReply) -> (result: Result<Installation>)
        requires
            installation_answers(self.deep_view(), reply.deep_view()),
        ensures
            outcome(result) == next_installation_step(self.deep_view(), reply.deep_view()),
    {
        match (self, reply) {
            (
                Installation::Resolve { path: _, assume_yes },
                InstallationReply::Resolved { input, is_file },
            ) => {
                if !is_file {
                    return Err(
                        AppError::new(
                            String::from_str(
                                "The selected Debian package is not a regular file: ",
                            ).concat(display(input.as_slice()).as_str()),
                        ),
                    );
                }
                Ok(Installation::CheckHelper { input, assume_yes })
            },
            (
                Installation::CheckHelper { input, assume_yes },
                InstallationReply::Helper(facts),
            ) => {
                verify_helper(&facts)?;
                Ok(Installation::HashSource { input, assume_yes })
            },
            (Installation::HashSource { input, assume_yes }, InstallationReply::Text(output)) => {
                let source = sha256_file(output.as_str())?;
                Ok(Installation::Convert { input, assume_yes, source })
            },
            (
                Installation::Convert { input, assume_yes, source },
                InstallationReply::Ended { code, status },
            ) => {
                let succeeded = match code {
                    Some(number) => number == 0,
                    None => false,
                };
                if !succeeded {
                    return Err(
                        AppError::new(
                            String::from_str(
                                "Debforge could not convert the selected package (status ",
                            ).concat(status.as_str()).concat(")."),
                        ),
                    );
                }
                Ok(Installation::FindPackage { input, assume_yes, source })
            },
            (
                Installation::FindPackage { input, assume_yes, source },
                InstallationReply::Entries(entries),
            ) => {
                let package = find_converted_package(&entries)?;
                Ok(Installation::HashPackage { input, assume_yes, source, package })
            },
            (
                Installation::HashPackage { input, assume_yes, source, package },
                InstallationReply::Text(output),
            ) => {
                let converted_sha256 = sha256_file(output.as_str())?;
                let receipt = InstallReceipt {
                    package_name: String::from_str(""),
                    package_version: String::from_str(""),
                    source_path: input,
                    source_sha256: source,
                    converted_sha256,
                };
                assert(receipt.package_name@ =~= seq![] && receipt.package_version@ =~= seq![]) by {
                    reveal_strlit("");
                }
                Ok(Installation::Identify { assume_yes, package, receipt })
            },
            (
                Installation::Identify { assume_yes, package, receipt },
                InstallationReply::Text(output),
            ) => {
                let (package_name, package_version) = query_package_identity(output.as_str())?;
                let receipt = InstallReceipt { package_name, package_version, ..receipt };
                Ok(Installation::Annotate { assume_yes, package, receipt })
            },
            (
                Installation::Annotate { assume_yes, package, receipt },
                InstallationReply::Text(pkginfo),
            ) => {
                let notes = parse_annotations(pkginfo.as_str())?;
                if !has_source(&notes.source_sha256, receipt.source_sha256.as_str()) {
                    return Err(
                        failure(
                            "The converted package does not contain the expected Debian source digest.",
                        ),
                    );
                }
                Ok(Installation::Review { assume_yes, package, receipt, warnings: notes.warnings })
            },
            (
                Installation::Review { assume_yes, package, receipt, warnings: _ },
                InstallationReply::Answer(answer),
            ) => if user_agrees(assume_yes, &answer) {
                Ok(Installation::Authorize { package, receipt })
            } else {
                Ok(Installation::Canceled)
            },
            (
                Installation::Authorize { package: _, receipt },
                InstallationReply::Ended { code, status },
            ) => {
                run_privileged_install(code, status.as_str())?;
                Ok(Installation::Verify { receipt })
            },
            (Installation::Verify { receipt }, InstallationReply::Text(output)) => {
                verify_installed(output.as_str(), receipt.package_version.as_str())?;
                Ok(Installation::Record { receipt })
            },
            (other, _) => Ok(other),
        }
    }
}

// ---------------------------------------------------------------------------
// Laws
// ---------------------------------------------------------------------------
/// The root helper is run only after a review that the user agreed to, and it
/// gets the reviewed package and digest.
pub proof fn authorization_follows_consent(step: InstallationModel, event: InstallationEvent)
    requires
        installation_answers(step, event),
        next_installation_step(step, event) matches Ok(InstallationModel::Authorize { .. }),
    ensures
        match (step, event) {
            (
                InstallationModel::Review { assume_yes, package, receipt, .. },
                InstallationEvent::Answer(answer),
            ) => agrees(assume_yes, answer) && next_installation_step(step, event) == Ok::<
                InstallationModel,
                Seq<char>,
            >(InstallationModel::Authorize { package, receipt }),
            _ => false,
        },
{
}

/// A package is shown for review only if it names the digest of the Debian
/// package that was selected.
pub proof fn only_the_converted_source_is_reviewed(
    step: InstallationModel,
    event: InstallationEvent,
)
    requires
        installation_answers(step, event),
        next_installation_step(step, event) matches Ok(InstallationModel::Review { .. }),
    ensures
        match (step, event) {
            (InstallationModel::Annotate { receipt, .. }, InstallationEvent::Text(pkginfo)) =>
            notes_of(lines(pkginfo)) matches Ok(notes) && notes.source_sha256 == Some(
                receipt.source_sha256,
            ),
            _ => false,
        },
{
}

} // verus!
