//! The decisions of the root helper.

use vstd::prelude::*;
use vstd::utf8::{decode_utf8, encode_utf8, valid_utf8};

use crate::attempts::{after_attempt, next_attempt, CreationReply, NextAttempt};
use crate::bytes::{byte_lists, copy, same};
use crate::digest::{is_sha256, normalize_sha256, printed_sha256, sha256_file, sha256_value};
use crate::encoding::{decode, lemma_decoded, lossy_text};
use crate::error::{failure, outcome, AppError, Outcome, Result};
use crate::number::{
    hex_digits, hex_has_only_hex_digits, hex_text, number_value, numbers_are_in_range,
    parse_number, NumberError,
};
use crate::paths::{display, is_absolute, is_absolute_path, join_path, joined_path};
use crate::pieces::{lines, lowercase, split_lines, split_words, texts, words};
use crate::text::{chars, equal, has_prefix, strip_prefix};

verus! {

/// The directory below which packages are staged.
pub const STAGING_PARENT: &'static str = "/var/tmp";

/// The tool that hashes a staged package.
pub const SYSTEM_SHA256SUM: &'static str = "/usr/bin/sha256sum";

/// The largest package that is installed: 64 GiB.
pub const MAX_PACKAGE_BYTES: u64 = 68_719_476_736;

/// The number of names that are tried for a staging directory.
pub const MAX_STAGING_ATTEMPTS: u32 = 32;

/// The message when all of them are taken.
pub const NO_FREE_STAGING: &'static str = "Cannot allocate a unique secure staging directory.";

// ---------------------------------------------------------------------------
// Request
// ---------------------------------------------------------------------------
/// What the helper is asked to install.
#[derive(Debug, Clone, PartialEq, Eq)]
pub struct InstallRequest {
    pub expected_sha256: String,
    pub package: Vec<u8>,
}

/// The mathematical value of an [`InstallRequest`].
pub struct RequestModel {
    pub expected_sha256: Seq<char>,
    pub package: Seq<u8>,
}

impl DeepView for InstallRequest {
    type V = RequestModel;

    open spec fn deep_view(&self) -> RequestModel {
        RequestModel { expected_sha256: self.expected_sha256@, package: self.package@ }
    }
}

/// The request that the arguments of the helper stand for.
pub open spec fn request_of(arguments: Seq<Seq<u8>>) -> Outcome<RequestModel> {
    if arguments.len() != 4 || arguments[0] != encode_utf8("--sha256"@) || arguments[2]
        != encode_utf8("--"@) {
        Err("Usage: debforge-helper --sha256 DIGEST -- PACKAGE"@)
    } else if !valid_utf8(arguments[1]) {
        Err("The expected SHA-256 value is not valid UTF-8."@)
    } else {
        match sha256_value(decode_utf8(arguments[1])) {
            Err(message) => Err(message),
            Ok(expected_sha256) => if is_absolute_path(arguments[3]) {
                Ok(RequestModel { expected_sha256, package: arguments[3] })
            } else {
                Err("The package path must be absolute."@)
            },
        }
    }
}

/// Read the fixed arguments of the helper.
pub fn parse_request(arguments: &[Vec<u8>]) -> (result: Result<InstallRequest>)
    ensures
        outcome(result) == request_of(byte_lists(arguments@)),
{
    let ghost all = byte_lists(arguments@);
    assert(all.len() == arguments@.len());
    if arguments.len() != 4 {
        return Err(failure("Usage: debforge-helper --sha256 DIGEST -- PACKAGE"));
    }
    assert(all[0] == arguments@[0]@);
    assert(all[1] == arguments@[1]@);
    assert(all[2] == arguments@[2]@);
    assert(all[3] == arguments@[3]@);
    if !same(arguments[0].as_slice(), "--sha256".as_bytes()) || !same(
        arguments[2].as_slice(),
        "--".as_bytes(),
    ) {
        return Err(failure("Usage: debforge-helper --sha256 DIGEST -- PACKAGE"));
    }
    let digest = match decode(arguments[1].as_slice()) {
        Ok(text) => text,
        Err(_) => return Err(failure("The expected SHA-256 value is not valid UTF-8.")),
    };
    proof {
        lemma_decoded(digest@, arguments@[1]@);
    }
    let expected_sha256 = normalize_sha256(digest.as_str())?;
    let package = arguments[3].as_slice();
    if !is_absolute(package) {
        return Err(failure("The package path must be absolute."));
    }
    Ok(InstallRequest { expected_sha256, package: copy(package) })
}

// ---------------------------------------------------------------------------
// Identity
// ---------------------------------------------------------------------------
/// The place of the first line with a start, or the number of lines.
pub open spec fn first_line_with(all_lines: Seq<Seq<char>>, start: Seq<char>) -> int
    decreases all_lines.len(),
{
    if all_lines.len() == 0 || has_prefix(all_lines[0], start) {
        0
    } else {
        1 + first_line_with(all_lines.drop_first(), start)
    }
}

/// The effective user ID in `/proc/self/status`.
pub open spec fn effective_user(status: Seq<char>) -> Option<u32> {
    let all_lines = lines(status);
    let at = first_line_with(all_lines, "Uid:"@);
    if at == all_lines.len() {
        None
    } else {
        let fields = words(all_lines[at].skip("Uid:"@.len() as int));
        if fields.len() < 2 {
            None
        } else {
            match number_value(fields[1], u32::MAX as int) {
                Ok(user) => Some(user as u32),
                Err(_) => None,
            }
        }
    }
}

/// The user who asked for the installation.
pub open spec fn caller_of(status: Seq<char>, caller: std::result::Result<Seq<char>, Seq<char>>) -> Outcome<
    u32,
> {
    match effective_user(status) {
        None => Err("Cannot determine the effective user ID."@),
        Some(user) => if user != 0 {
            Err("The secure Debforge helper must run as root through Polkit."@)
        } else {
            match caller {
                Err(fault) => Err(
                    "PKEXEC_UID is absent. Start the helper through pkexec."@ + ": "@ + fault,
                ),
                Ok(text) => match number_value(text, u32::MAX as int) {
                    Err(fault) => Err(
                        "PKEXEC_UID is not a valid user ID"@ + ": "@ + fault.description(),
                    ),
                    Ok(number) => if number == 0 {
                        Err("The Debforge helper requires a non-root desktop caller."@)
                    } else {
                        Ok(number as u32)
                    },
                },
            }
        },
    }
}

fn find_effective_user(status: &str) -> (result: Option<u32>)
    ensures
        result == effective_user(status@),
{
    let characters = chars(status);
    let all_lines = split_lines(characters.as_slice());
    let ghost all = texts(all_lines@);
    assert(all.skip(0) == all);
    for index in 0..all_lines.len()
        invariant
            all == texts(all_lines@),
            all == lines(status@),
            first_line_with(all, "Uid:"@) == index + first_line_with(
                all.skip(index as int),
                "Uid:"@,
            ),
    {
        let line = all_lines[index];
        assert(all.skip(index as int)[0] == line@);
        assert(all[index as int] == line@);
        if let Some(rest) = strip_prefix(line, "Uid:") {
            let fields = split_words(rest);
            let ghost parts = texts(fields@);
            assert(parts.len() == fields@.len());
            if fields.len() < 2 {
                return None;
            }
            assert(parts[1] == fields@[1]@);
            return match parse_number(fields[1], u32::MAX as u64) {
                Ok(user) => Some(user as u32),
                Err(_) => None,
            };
        }
        assert(all.skip(index as int).drop_first() == all.skip(index + 1));
    }
    None
}

/// The value of a text or of the reason why there is none.
pub open spec fn text_or_fault(text: std::result::Result<&str, &str>) -> std::result::Result<
    Seq<char>,
    Seq<char>,
> {
    match text {
        Ok(value) => Ok(value@),
        Err(fault) => Err(fault@),
    }
}

/// Require that the helper runs as root for a desktop user.  `status` is the
/// content of `/proc/self/status`, `caller` that of `PKEXEC_UID` or the reason
/// why it is not there.
pub fn verify_execution_context(status: &str, caller: std::result::Result<&str, &str>) -> (result:
    Result<u32>)
    ensures
        match result {
            Ok(user) => caller_of(status@, text_or_fault(caller)) == Ok::<u32, Seq<char>>(user),
            Err(error) => caller_of(status@, text_or_fault(caller)) == Err::<u32, Seq<char>>(
                error@,
            ),
        },
{
    let user = match find_effective_user(status) {
        Some(user) => user,
        None => return Err(failure("Cannot determine the effective user ID.")),
    };
    if user != 0 {
        return Err(failure("The secure Debforge helper must run as root through Polkit."));
    }
    let text = match caller {
        Ok(text) => text,
        Err(fault) => return Err(
            AppError::new(
                String::from_str("PKEXEC_UID is absent. Start the helper through pkexec.").concat(
                    ": ",
                ).concat(fault),
            ),
        ),
    };
    let characters = chars(text);
    match parse_number(characters.as_slice(), u32::MAX as u64) {
        Err(fault) => Err(
            AppError::new(
                String::from_str("PKEXEC_UID is not a valid user ID").concat(": ").concat(
                    fault.describe(),
                ),
            ),
        ),
        Ok(number) => if number == 0 {
            Err(failure("The Debforge helper requires a non-root desktop caller."))
        } else {
            Ok(number as u32)
        },
    }
}

// ---------------------------------------------------------------------------
// Staging
// ---------------------------------------------------------------------------
/// Bytes as lower-case hexadecimal text.
pub open spec fn hex_of_bytes(bytes: Seq<u8>) -> Seq<char>
    decreases bytes.len(),
{
    if bytes.len() == 0 {
        seq![]
    } else {
        hex_of_bytes(bytes.drop_last()) + hex_digits(bytes.last() as nat, 2)
    }
}

/// Write random bytes as a nonce.
pub fn random_nonce(bytes: &[u8]) -> (result: String)
    ensures
        result@ == hex_of_bytes(bytes@),
{
    let mut output = String::from_str("");
    assert(output@ =~= seq![]) by {
        reveal_strlit("");
    }
    for index in 0..bytes.len()
        invariant
            output@ == hex_of_bytes(bytes@.take(index as int)),
    {
        proof {
            assert(bytes@.take(index + 1).drop_last() == bytes@.take(index as int));
            assert(bytes@.take(index + 1).last() == bytes@[index as int]);
        }
        output = output.concat(hex_text(bytes[index] as u128, 2).as_str());
    }
    assert(bytes@.take(bytes@.len() as int) == bytes@);
    output
}

/// Name a staging directory.
pub fn staging_directory(parent: &[u8], random: &[u8]) -> (result: Vec<u8>)
    ensures
        result@ == joined_path(
            parent@,
            encode_utf8("debforge-install-"@ + hex_of_bytes(random@)),
        ),
{
    let name = String::from_str("debforge-install-").concat(random_nonce(random).as_str());
    join_path(parent, name.as_str().as_bytes())
}

/// What is known of the opened package.
#[derive(Debug, Clone, Copy, PartialEq, Eq)]
pub struct PackageFacts {
    pub is_file: bool,
    pub owner: u32,
    pub length: u64,
}

/// The step of a staging that is to be made next.
pub enum StagingModel {
    /// Open the package without following a link and look at it.
    Open { source: Seq<u8>, expected: Seq<char>, caller: u32 },
    /// Make a private staging directory.
    MakeDirectory { expected: Seq<char>, length: u64 },
    /// Copy the opened package.
    Copy { expected: Seq<char>, length: u64, directory: Seq<u8>, target: Seq<u8> },
    /// Hash the copy.
    Hash { expected: Seq<char>, directory: Seq<u8>, target: Seq<u8> },
    /// The copy is the package that was reviewed.
    Staged { directory: Seq<u8>, target: Seq<u8> },
}

/// The step of a staging that is to be made next.
#[derive(Debug, Clone, PartialEq, Eq)]
pub enum Staging {
    /// Open the package without following a link and look at it.
    Open { source: Vec<u8>, expected: String, caller: u32 },
    /// Make a private staging directory.
    MakeDirectory { expected: String, length: u64 },
    /// Copy the opened package.
    Copy { expected: String, length: u64, directory: Vec<u8>, target: Vec<u8> },
    /// Hash the copy.
    Hash { expected: String, directory: Vec<u8>, target: Vec<u8> },
    /// The copy is the package that was reviewed.
    Staged(StagedPackage),
}

/// A copy of a package that nobody but root can change.
#[derive(Debug, Clone, PartialEq, Eq)]
pub struct StagedPackage {
    root: Vec<u8>,
    path: Vec<u8>,
}

impl StagedPackage {
    /// The staging directory.
    pub closed spec fn directory(self) -> Seq<u8> {
        self.root@
    }

    /// The copy.
    pub closed spec fn target(self) -> Seq<u8> {
        self.path@
    }

    /// The path of the copy.
    pub fn path(&self) -> (result: &[u8])
        ensures
            result@ == self.target(),
    {
        self.path.as_slice()
    }

    /// The staging directory, which is removed at the end.
    pub fn root(&self) -> (result: &[u8])
        ensures
            result@ == self.directory(),
    {
        self.root.as_slice()
    }
}

impl DeepView for Staging {
    type V = StagingModel;

    open spec fn deep_view(&self) -> StagingModel {
        match self {
            Staging::Open { source, expected, caller } => StagingModel::Open {
                source: source@,
                expected: expected@,
                caller: *caller,
            },
            Staging::MakeDirectory { expected, length } => StagingModel::MakeDirectory {
                expected: expected@,
                length: *length,
            },
            Staging::Copy { expected, length, directory, target } => StagingModel::Copy {
                expected: expected@,
                length: *length,
                directory: directory@,
                target: target@,
            },
            Staging::Hash { expected, directory, target } => StagingModel::Hash {
                expected: expected@,
                directory: directory@,
                target: target@,
            },
            Staging::Staged(package) => StagingModel::Staged {
                directory: package.directory(),
                target: package.target(),
            },
        }
    }
}

/// What a step gave.
pub enum StagingEvent {
    Opened(PackageFacts),
    Made(Seq<u8>),
    Copied(u64),
    Hashed(Seq<char>),
}

/// What a step gave.
#[derive(Debug, Clone, PartialEq, Eq)]
pub enum StagingReply {
    /// What the opened package is.
    Opened(PackageFacts),
    /// The new staging directory.
    Made(Vec<u8>),
    /// The number of bytes that were copied.
    Copied(u64),
    /// What `sha256sum` printed about the copy.
    Hashed(String),
}

impl DeepView for StagingReply {
    type V = StagingEvent;

    open spec fn deep_view(&self) -> StagingEvent {
        match self {
            StagingReply::Opened(facts) => StagingEvent::Opened(*facts),
            StagingReply::Made(directory) => StagingEvent::Made(directory@),
            StagingReply::Copied(count) => StagingEvent::Copied(*count),
            StagingReply::Hashed(output) => StagingEvent::Hashed(output@),
        }
    }
}

/// The event can come of the step.
pub open spec fn staging_answers(step: StagingModel, event: StagingEvent) -> bool {
    match step {
        StagingModel::Open { .. } => event is Opened,
        StagingModel::MakeDirectory { .. } => event is Made,
        StagingModel::Copy { .. } => event is Copied,
        StagingModel::Hash { .. } => event is Hashed,
        StagingModel::Staged { .. } => false,
    }
}

/// The fault of an opened package.
pub open spec fn package_fault(facts: PackageFacts, caller: u32) -> Option<Seq<char>> {
    if !facts.is_file {
        Some("The converted package is not a regular file."@)
    } else if facts.owner != caller {
        Some("The converted package is not owned by the authorizing user."@)
    } else if facts.length == 0 || facts.length > MAX_PACKAGE_BYTES {
        Some("The converted package size is outside the supported range."@)
    } else {
        None
    }
}

/// The first step of a staging.
pub open spec fn first_staging_step(source: Seq<u8>, expected: Seq<char>, caller: u32) -> Outcome<
    StagingModel,
> {
    match sha256_value(expected) {
        Err(message) => Err(message),
        Ok(digest) => Ok(StagingModel::Open { source, expected: digest, caller }),
    }
}

/// The step after another step gave an event.
pub open spec fn next_staging_step(step: StagingModel, event: StagingEvent) -> Outcome<
    StagingModel,
> {
    match (step, event) {
        (StagingModel::Open { expected, caller, .. }, StagingEvent::Opened(facts)) =>
        match package_fault(facts, caller) {
            Some(message) => Err(message),
            None => Ok(StagingModel::MakeDirectory { expected, length: facts.length }),
        },
        (StagingModel::MakeDirectory { expected, length }, StagingEvent::Made(directory)) => Ok(
            StagingModel::Copy {
                expected,
                length,
                directory,
                target: joined_path(directory, encode_utf8("package.pkg.tar.zst"@)),
            },
        ),
        (
            StagingModel::Copy { expected, length, directory, target },
            StagingEvent::Copied(count),
        ) => if count != length {
            Err("The converted package changed while the secure copy was created."@)
        } else {
            Ok(StagingModel::Hash { expected, directory, target })
        },
        (StagingModel::Hash { expected, directory, target }, StagingEvent::Hashed(output)) =>
        match printed_sha256(output) {
            Err(message) => Err(message),
            Ok(actual) => if actual == expected {
                Ok(StagingModel::Staged { directory, target })
            } else {
                Err("The converted package changed after the installation review."@)
            },
        },
        (other, _) => Ok(other),
    }
}

/// Start the staging of a package.
pub fn stage_verified_package(source: &[u8], expected_sha256: &str, caller_uid: u32) -> (result:
    Result<Staging>)
    ensures
        outcome(result) == first_staging_step(source@, expected_sha256@, caller_uid),
{
    let expected = normalize_sha256(expected_sha256)?;
    Ok(Staging::Open { source: copy(source), expected, caller: caller_uid })
}

impl Staging {
    /// Go on after the step was made.
    pub fn advance(self, reply: StagingReply) -> (result: Result<Staging>)
        requires
            staging_answers(self.deep_view(), reply.deep_view()),
        ensures
            outcome(result) == next_staging_step(self.deep_view(), reply.deep_view()),
    {
        match (self, reply) {
            (Staging::Open { source: _, expected, caller }, StagingReply::Opened(facts)) => {
                if !facts.is_file {
                    return Err(failure("The converted package is not a regular file."));
                }
                if facts.owner != caller {
                    return Err(
                        failure("The converted package is not owned by the authorizing user."),
                    );
                }
                if facts.length == 0 || facts.length > MAX_PACKAGE_BYTES {
                    return Err(
                        failure("The converted package size is outside the supported range."),
                    );
                }
                Ok(Staging::MakeDirectory { expected, length: facts.length })
            },
            (Staging::MakeDirectory { expected, length }, StagingReply::Made(directory)) => {
                let target = join_path(directory.as_slice(), "package.pkg.tar.zst".as_bytes());
                Ok(Staging::Copy { expected, length, directory, target })
            },
            (Staging::Copy { expected, length, directory, target }, StagingReply::Copied(count)) => {
                if count != length {
                    return Err(
                        failure("The converted package changed while the secure copy was created."),
                    );
                }
                Ok(Staging::Hash { expected, directory, target })
            },
            (Staging::Hash { expected, directory, target }, StagingReply::Hashed(output)) => {
                let actual = sha256_file(output.as_str())?;
                if !equal(actual.as_str(), expected.as_str()) {
                    return Err(
                        failure("The converted package changed after the installation review."),
                    );
                }
                Ok(Staging::Staged(StagedPackage { root: directory, path: target }))
            },
            (other, _) => Ok(other),
        }
    }
}

/// Decide what follows an attempt to create a staging directory.
pub fn next_staging_attempt(made: u32, reply: CreationReply) -> (result: Result<NextAttempt>)
    ensures
        match result {
            Ok(next) => after_attempt(made, MAX_STAGING_ATTEMPTS, reply, NO_FREE_STAGING@) == Ok::<
                NextAttempt,
                Seq<char>,
            >(next),
            Err(error) => after_attempt(made, MAX_STAGING_ATTEMPTS, reply, NO_FREE_STAGING@)
                == Err::<NextAttempt, Seq<char>>(error@),
        },
{
    next_attempt(made, MAX_STAGING_ATTEMPTS, reply, NO_FREE_STAGING)
}

/// Require that the parent of a staging directory is a directory.
pub fn check_staging_parent(parent: &[u8], is_directory: bool) -> (result: Result<()>)
    ensures
        outcome(result) == if is_directory {
            Ok::<(), Seq<char>>(())
        } else {
            Err("The staging parent is not a directory: "@ + lossy_text(parent@))
        },
{
    if is_directory {
        Ok(())
    } else {
        Err(
            AppError::new(
                String::from_str("The staging parent is not a directory: ").concat(
                    display(parent).as_str(),
                ),
            ),
        )
    }
}

// ---------------------------------------------------------------------------
// Installation
// ---------------------------------------------------------------------------
/// Require that pacman is installed.
fn check_pacman(is_file: bool) -> (result: Result<()>)
    ensures
        outcome(result) == if is_file {
            Ok::<(), Seq<char>>(())
        } else {
            Err("Pacman is not installed at /usr/bin/pacman."@)
        },
{
    if is_file {
        Ok(())
    } else {
        Err(failure("Pacman is not installed at /usr/bin/pacman."))
    }
}

/// Require that pacman accepted the copy.  `status` describes how it ended.
fn check_validation(succeeded: bool, status: &str) -> (result: Result<()>)
    ensures
        outcome(result) == if succeeded {
            Ok::<(), Seq<char>>(())
        } else {
            Err("Pacman rejected the secure package copy (status "@ + status@ + ")."@)
        },
{
    if succeeded {
        Ok(())
    } else {
        Err(
            AppError::new(
                String::from_str("Pacman rejected the secure package copy (status ").concat(
                    status,
                ).concat(")."),
            ),
        )
    }
}

/// Require that pacman installed the copy.  `status` describes how it ended.
fn check_installation(succeeded: bool, status: &str) -> (result: Result<()>)
    ensures
        outcome(result) == if succeeded {
            Ok::<(), Seq<char>>(())
        } else {
            Err("Pacman could not install the package (status "@ + status@ + ")."@)
        },
{
    if succeeded {
        Ok(())
    } else {
        Err(
            AppError::new(
                String::from_str("Pacman could not install the package (status ").concat(
                    status,
                ).concat(")."),
            ),
        )
    }
}

/// The step of a pacman transaction that is to be made next.
#[derive(Debug, Clone, Copy, PartialEq, Eq, Structural)]
pub enum Transaction {
    /// Look for pacman.
    Locate,
    /// Let pacman read the copy.
    Validate,
    /// Let pacman install the copy.
    Install,
    /// The copy is installed.
    Finished,
}

/// What a step gave.
#[derive(Debug, Clone, PartialEq, Eq)]
pub enum TransactionReply {
    /// Whether pacman is a regular file.
    Located(bool),
    /// Whether pacman succeeded, and how it ended.
    Ended { succeeded: bool, status: String },
}

/// The reply fits the step.
pub open spec fn transaction_answers(step: Transaction, reply: TransactionReply) -> bool {
    match step {
        Transaction::Locate => reply is Located,
        Transaction::Validate => reply is Ended,
        Transaction::Install => reply is Ended,
        Transaction::Finished => false,
    }
}

/// The step after another.
pub open spec fn next_transaction_step(step: Transaction, reply: TransactionReply) -> Outcome<
    Transaction,
> {
    match step {
        Transaction::Locate => if reply->Located_0 {
            Ok(Transaction::Validate)
        } else {
            Err("Pacman is not installed at /usr/bin/pacman."@)
        },
        Transaction::Validate => if reply->succeeded {
            Ok(Transaction::Install)
        } else {
            Err("Pacman rejected the secure package copy (status "@ + reply->status@ + ")."@)
        },
        Transaction::Install => if reply->succeeded {
            Ok(Transaction::Finished)
        } else {
            Err("Pacman could not install the package (status "@ + reply->status@ + ")."@)
        },
        Transaction::Finished => Ok(step),
    }
}

/// Start the validation and the installation of a staged package.
pub fn validate_and_install() -> (result: Transaction)
    ensures
        result == Transaction::Locate,
{
    Transaction::Locate
}

impl Transaction {
    /// Go on after the step was made.
    pub fn advance(self, reply: TransactionReply) -> (result: Result<Transaction>)
        requires
            transaction_answers(self, reply),
        ensures
            match result {
                Ok(step) => next_transaction_step(self, reply) == Ok::<Transaction, Seq<char>>(
                    step,
                ),
                Err(error) => next_transaction_step(self, reply) == Err::<Transaction, Seq<char>>(
                    error@,
                ),
            },
    {
        match (self, reply) {
            (Transaction::Locate, TransactionReply::Located(is_file)) => {
                check_pacman(is_file)?;
                Ok(Transaction::Validate)
            },
            (Transaction::Validate, TransactionReply::Ended { succeeded, status }) => {
                check_validation(succeeded, status.as_str())?;
                Ok(Transaction::Install)
            },
            (Transaction::Install, TransactionReply::Ended { succeeded, status }) => {
                check_installation(succeeded, status.as_str())?;
                Ok(Transaction::Finished)
            },
            (step, _) => Ok(step),
        }
    }
}

// ---------------------------------------------------------------------------
// Laws
// ---------------------------------------------------------------------------
/// The steps that a staging goes through.
pub open spec fn staging_run(step: StagingModel, events: Seq<StagingEvent>) -> Outcome<StagingModel>
    decreases events.len(),
{
    if events.len() == 0 {
        Ok(step)
    } else {
        match staging_run(step, events.drop_last()) {
            Err(message) => Err(message),
            Ok(before) => if staging_answers(before, events.last()) {
                next_staging_step(before, events.last())
            } else {
                Ok(before)
            },
        }
    }
}

/// Some event of a list says that the copy has the digest.
pub open spec fn digest_was_seen(events: Seq<StagingEvent>, expected: Seq<char>) -> bool {
    exists|index: int|
        0 <= index < events.len() && ((#[trigger] events[index]) matches StagingEvent::Hashed(output)
            && printed_sha256(output) == Ok::<Seq<char>, Seq<char>>(expected))
}

/// Some event of a list says that the package is a file of the caller of an
/// accepted size.
pub open spec fn package_was_checked(events: Seq<StagingEvent>, caller: u32) -> bool {
    exists|index: int|
        0 <= index < events.len() && ((#[trigger] events[index]) matches StagingEvent::Opened(facts)
            && package_fault(facts, caller) is None)
}

/// What every step of a staging knows.
pub open spec fn staging_knows(
    step: StagingModel,
    events: Seq<StagingEvent>,
    expected: Seq<char>,
    caller: u32,
) -> bool {
    match step {
        StagingModel::Open { expected: digest, caller: user, .. } => digest == expected && user
            == caller,
        StagingModel::MakeDirectory { expected: digest, .. } => digest == expected
            && package_was_checked(events, caller),
        StagingModel::Copy { expected: digest, .. } => digest == expected && package_was_checked(
            events,
            caller,
        ),
        StagingModel::Hash { expected: digest, .. } => digest == expected && package_was_checked(
            events,
            caller,
        ),
        StagingModel::Staged { .. } => package_was_checked(events, caller) && digest_was_seen(
            events,
            expected,
        ),
    }
}

/// A package is staged only after it was found to be a regular file of the
/// caller of an accepted size, and its copy was found to have the reviewed
/// digest.
pub proof fn only_the_reviewed_package_is_staged(
    source: Seq<u8>,
    expected: Seq<char>,
    caller: u32,
    events: Seq<StagingEvent>,
)
    requires
        first_staging_step(source, expected, caller) is Ok,
    ensures
        staging_run(first_staging_step(source, expected, caller)->Ok_0, events) matches Ok(step)
            ==> staging_knows(step, events, sha256_value(expected)->Ok_0, caller),
    decreases events.len(),
{
    let start = first_staging_step(source, expected, caller)->Ok_0;
    let digest = sha256_value(expected)->Ok_0;
    if events.len() > 0 {
        let fewer = events.drop_last();
        only_the_reviewed_package_is_staged(source, expected, caller, fewer);
        if staging_run(start, fewer) is Ok {
            if package_was_checked(fewer, caller) {
                let index = choose|index: int|
                    0 <= index < fewer.len() && ((#[trigger] fewer[index]) matches
                        StagingEvent::Opened(facts) && package_fault(facts, caller) is None);
                assert(events[index] == fewer[index]);
                assert(package_was_checked(events, caller));
            }
            if digest_was_seen(fewer, digest) {
                let index = choose|index: int|
                    0 <= index < fewer.len() && ((#[trigger] fewer[index]) matches
                        StagingEvent::Hashed(output) && printed_sha256(output) == Ok::<
                        Seq<char>,
                        Seq<char>,
                    >(digest));
                assert(events[index] == fewer[index]);
                assert(digest_was_seen(events, digest));
            }
            assert(events[events.len() - 1] == events.last());
        }
    }
}

/// Pacman installs a copy only after it was found to be valid.
pub proof fn validation_comes_before_installation(step: Transaction, reply: TransactionReply)
    requires
        transaction_answers(step, reply),
    ensures
        next_transaction_step(step, reply) == Ok::<Transaction, Seq<char>>(Transaction::Install)
            ==> step == Transaction::Validate && reply->succeeded,
        next_transaction_step(step, reply) == Ok::<Transaction, Seq<char>>(Transaction::Finished)
            ==> step == Transaction::Install && reply->succeeded,
        step == Transaction::Validate && reply->succeeded ==> next_transaction_step(step, reply)
            == Ok::<Transaction, Seq<char>>(Transaction::Install),
        step == Transaction::Install && reply->succeeded ==> next_transaction_step(step, reply)
            == Ok::<Transaction, Seq<char>>(Transaction::Finished),
        step == Transaction::Locate ==> (next_transaction_step(step, reply) is Ok
            <==> reply->Located_0),
{
}

/// A package is accepted exactly if it is a regular file of the caller with at
/// least one byte and no more than the greatest accepted size; its length, its
/// directory and its digest are handed on to the end.
pub proof fn stagings_hand_on_what_they_know(
    step: StagingModel,
    event: StagingEvent,
    next: StagingModel,
)
    requires
        staging_answers(step, event),
        next_staging_step(step, event) == Ok::<StagingModel, Seq<char>>(next),
    ensures
        match (step, event, next) {
            (
                StagingModel::Open { expected, caller, .. },
                StagingEvent::Opened(facts),
                StagingModel::MakeDirectory { expected: digest, length },
            ) => facts.is_file && facts.owner == caller && facts.length > 0 && length
                == facts.length && digest == expected,
            (
                StagingModel::MakeDirectory { expected, length },
                StagingEvent::Made(made),
                StagingModel::Copy { expected: digest, length: size, directory, target },
            ) => digest == expected && size == length && directory == made && target
                == joined_path(made, encode_utf8("package.pkg.tar.zst"@)),
            (
                StagingModel::Copy { expected, length, directory, target },
                StagingEvent::Copied(count),
                StagingModel::Hash { expected: digest, directory: place, target: file },
            ) => count == length && digest == expected && place == directory && file == target,
            (
                StagingModel::Hash { expected, directory, target },
                StagingEvent::Hashed(output),
                StagingModel::Staged { directory: place, target: file },
            ) => printed_sha256(output) == Ok::<Seq<char>, Seq<char>>(expected) && place
                == directory && file == target,
            _ => false,
        },
{
}

/// A request names a digest and an absolute path, and both are taken as they
/// stand, the digest in lower case.
pub proof fn requests_are_taken_as_they_stand(digest: Seq<char>, package: Seq<u8>)
    requires
        is_sha256(digest),
        is_absolute_path(package),
    ensures
        request_of(
            seq![encode_utf8("--sha256"@), encode_utf8(digest), encode_utf8("--"@), package],
        ) == Ok::<RequestModel, Seq<char>>(
            (RequestModel { expected_sha256: lowercase(digest), package }),
        ),
{
    vstd::utf8::encode_utf8_valid_utf8(digest);
    vstd::utf8::encode_utf8_decode_utf8(digest);
}

proof fn lemma_first_line(all_lines: Seq<Seq<char>>, start: Seq<char>)
    ensures
        0 <= first_line_with(all_lines, start) <= all_lines.len(),
        first_line_with(all_lines, start) < all_lines.len() ==> has_prefix(
            all_lines[first_line_with(all_lines, start)],
            start,
        ),
        forall|index: int|
            0 <= index < first_line_with(all_lines, start) ==> !has_prefix(
                #[trigger] all_lines[index],
                start,
            ),
    decreases all_lines.len(),
{
    if all_lines.len() > 0 && !has_prefix(all_lines[0], start) {
        lemma_first_line(all_lines.drop_first(), start);
        assert forall|index: int|
            0 <= index < first_line_with(all_lines, start) implies !has_prefix(
            #[trigger] all_lines[index],
            start,
        ) by {
            if index > 0 {
                assert(all_lines[index] == all_lines.drop_first()[index - 1]);
            }
        }
    }
}

/// The effective user is the second number of the first `Uid:` line, behind the
/// real user.
pub proof fn the_second_number_is_the_effective_user(status: Seq<char>, at: int)
    requires
        0 <= at < lines(status).len(),
        has_prefix(lines(status)[at], "Uid:"@),
        forall|index: int| 0 <= index < at ==> !has_prefix(#[trigger] lines(status)[index], "Uid:"@),
    ensures
        ({
            let numbers = words(lines(status)[at].skip(4));
            &&& effective_user(status) is Some <==> numbers.len() >= 2 && number_value(
                numbers[1],
                0xffff_ffff,
            ) is Ok
            &&& effective_user(status) matches Some(user) ==> number_value(numbers[1], 0xffff_ffff)
                == Ok::<int, NumberError>(user as int)
        }),
{
    reveal_strlit("Uid:");
    lemma_first_line(lines(status), "Uid:"@);
    assert(first_line_with(lines(status), "Uid:"@) == at);
    numbers_are_in_range(words(lines(status)[at].skip(4))[1], 0xffff_ffff);
}

/// The helper works exactly for a root process that another user has called, and
/// the caller is that user.
pub proof fn only_desktop_callers_are_served(
    status: Seq<char>,
    caller: std::result::Result<Seq<char>, Seq<char>>,
)
    ensures
        caller_of(status, caller) matches Ok(user) ==> {
            &&& user != 0
            &&& effective_user(status) == Some(0u32)
            &&& caller matches Ok(text) && number_value(text, 0xffff_ffff) == Ok::<
                int,
                NumberError,
            >(user as int)
        },
        effective_user(status) == Some(0u32) && (caller matches Ok(text) && number_value(
            text,
            0xffff_ffff,
        ) matches Ok(user) && user != 0) ==> caller_of(status, caller) is Ok,
{
    if let Ok(text) = caller {
        numbers_are_in_range(text, 0xffff_ffff);
    }
}

/// Each byte is told by two digits of its own, so different bytes give different
/// texts.
pub proof fn every_byte_is_told(bytes: Seq<u8>, index: int)
    requires
        0 <= index < bytes.len(),
    ensures
        hex_of_bytes(bytes).len() == 2 * bytes.len(),
        hex_of_bytes(bytes).subrange(2 * index, 2 * index + 2) == hex_digits(
            bytes[index] as nat,
            2,
        ),
    decreases bytes.len(),
{
    let fewer = bytes.drop_last();
    let end = hex_digits(bytes.last() as nat, 2);
    hex_has_only_hex_digits(bytes.last() as nat, 2);
    assert(end.len() == 2);
    if fewer.len() == 0 {
        assert(hex_of_bytes(fewer).len() == 0);
    } else if index < fewer.len() {
        every_byte_is_told(fewer, index);
    } else {
        every_byte_is_told(fewer, 0);
    }
    assert(hex_of_bytes(bytes) == hex_of_bytes(fewer) + end);
    if index < fewer.len() {
        assert(hex_of_bytes(bytes).subrange(2 * index, 2 * index + 2) =~= hex_of_bytes(
            fewer,
        ).subrange(2 * index, 2 * index + 2));
    } else {
        assert(hex_of_bytes(bytes).subrange(2 * index, 2 * index + 2) =~= end);
    }
}

} // verus!
