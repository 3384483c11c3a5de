//! The creation of an Arch package, one step at a time.

use vstd::prelude::*;
use vstd::slice::slice_subrange;
use vstd::utf8::encode_utf8;

use crate::archive::files::{
    collect_sorted_file_list, encoded, epoch_fault, nul_list, paths_to_nul_bytes, push_arguments,
    push_time, sorted_file_list, time_arguments, validate_epoch,
};
use crate::bytes::{begins_with, byte_lists, copy, finishes_with, has_end, has_start};
use crate::encoding::lossy_text;
use crate::error::{failure, outcome, AppError, Outcome, Result};
use crate::lists::str_views;
use crate::paths::{
    display, file_name, is_under, join_path, joined_path, name_of, starts_with_path,
};
use crate::process::{
    describe_command, failure_message, level_fault, run_checked, shown_command, zstd_arguments,
    zstd_words, CommandOutput,
};

verus! {

pub const DEFAULT_ZSTD_LEVEL: i32 = 3;

/// Options for Arch package creation.
#[derive(Clone, Copy, Debug, Eq, PartialEq)]
pub struct PackageOptions {
    pub zstd_level: i32,
    pub source_date_epoch: Option<i64>,
    pub overwrite: bool,
    pub validate_with_pacman: bool,
}

impl Default for PackageOptions {
    fn default() -> (result: Self)
        ensures
            result == (PackageOptions {
                zstd_level: DEFAULT_ZSTD_LEVEL,
                source_date_epoch: None,
                overwrite: false,
                validate_with_pacman: false,
            }),
    {
        PackageOptions {
            zstd_level: DEFAULT_ZSTD_LEVEL,
            source_date_epoch: None,
            overwrite: false,
            validate_with_pacman: false,
        }
    }
}

/// State returned by optional `pacman -Qp` validation.
#[derive(Clone, Copy, Debug, Eq, PartialEq, Structural)]
pub enum ValidationStatus {
    Validated,
    PacmanUnavailable,
}

// ---------------------------------------------------------------------------
// Validation
// ---------------------------------------------------------------------------
/// How the validation of a package file went.
#[derive(Clone, Debug, PartialEq, Eq)]
pub enum PackageCheck {
    /// The path does not lead to a regular file.
    NotAFile,
    /// There is no pacman to ask.
    PacmanMissing,
    /// The pacman at a path was asked about a package at a resolved path.
    Asked { pacman: Vec<u8>, package: Vec<u8>, output: CommandOutput },
}

/// The arguments of pacman that validate a package file.
pub open spec fn validation_words(package: Seq<u8>) -> Seq<Seq<u8>> {
    encoded(seq!["-Qp"@, "--"@]).push(package)
}

/// Give the arguments of pacman that validate a package file.
pub fn validation_arguments(package: &[u8]) -> (result: Vec<Vec<u8>>)
    ensures
        byte_lists(result@) == validation_words(package@),
{
    let mut arguments: Vec<Vec<u8>> = Vec::new();
    assert(byte_lists(arguments@) =~= Seq::<Seq<u8>>::empty());
    let start: [&str; 2] = ["-Qp", "--"];
    push_arguments(&mut arguments, vstd::array::array_as_slice(&start));
    let ghost first = byte_lists(arguments@);
    arguments.push(copy(package));
    proof {
        assert(str_views(start@) =~= seq!["-Qp"@, "--"@]);
        assert(first =~= encoded(seq!["-Qp"@, "--"@]));
        assert(byte_lists(arguments@) =~= first.push(package@));
    }
    arguments
}

/// What the validation of a package file says of it.
pub open spec fn validation_of(package: Seq<char>, check: PackageCheck) -> Outcome<
    ValidationStatus,
> {
    match check {
        PackageCheck::NotAFile => Err("package output is not a regular file: "@ + package),
        PackageCheck::PacmanMissing => Ok(ValidationStatus::PacmanUnavailable),
        PackageCheck::Asked { pacman, package: path, output } => if output.status == Some(0i32) {
            Ok(ValidationStatus::Validated)
        } else {
            Err(failure_message(shown_command(pacman@, validation_words(path@)), output))
        },
    }
}

/// Decide whether a package is valid: it must be a regular file that pacman
/// accepts, and without pacman nothing more can be tested.
pub fn try_validate_package(package: &str, check: PackageCheck) -> (result: Result<
    ValidationStatus,
>)
    ensures
        match result {
            Ok(status) => validation_of(package@, check) == Ok::<ValidationStatus, Seq<char>>(
                status,
            ),
            Err(error) => validation_of(package@, check) == Err::<ValidationStatus, Seq<char>>(
                error@,
            ),
        },
{
    match check {
        PackageCheck::NotAFile => Err(
            AppError::new(
                String::from_str("package output is not a regular file: ").concat(package),
            ),
        ),
        PackageCheck::PacmanMissing => Ok(ValidationStatus::PacmanUnavailable),
        PackageCheck::Asked { pacman, package: path, output } => {
            let arguments = validation_arguments(path.as_slice());
            let description = describe_command(pacman.as_slice(), &arguments);
            run_checked(description.as_str(), output)?;
            Ok(ValidationStatus::Validated)
        },
    }
}

/// Require that a package is valid as far as pacman can tell.
pub fn validate_package(package: &str, check: PackageCheck) -> (result: Result<()>)
    ensures
        outcome(result) == match validation_of(package@, check) {
            Ok(_) => Ok::<(), Seq<char>>(()),
            Err(message) => Err(message),
        },
{
    match try_validate_package(package, check) {
        Ok(_) => Ok(()),
        Err(error) => Err(error),
    }
}

// ---------------------------------------------------------------------------
// Steps
// ---------------------------------------------------------------------------
/// The step of a package creation that is to be made next.
pub enum BuildModel {
    /// Check and resolve the package root, make and resolve the directory of
    /// the output.
    Resolve { output: Seq<u8>, options: PackageOptions },
    /// Find out whether something stands at the place of the package.
    Probe {
        root: Seq<u8>,
        directory: Seq<u8>,
        package: Seq<u8>,
        options: PackageOptions,
    },
    /// List the paths below the package root.
    List {
        root: Seq<u8>,
        directory: Seq<u8>,
        package: Seq<u8>,
        options: PackageOptions,
    },
    /// Write a file list to a new file in the directory.
    WriteList {
        root: Seq<u8>,
        directory: Seq<u8>,
        package: Seq<u8>,
        options: PackageOptions,
        list: Seq<u8>,
    },
    /// Archive and compress to a new partial file in the directory.
    Compress {
        directory: Seq<u8>,
        package: Seq<u8>,
        options: PackageOptions,
        list_path: Seq<u8>,
        /// The arguments of `bsdtar`.
        arguments: Seq<Seq<u8>>,
        /// The arguments of `zstd`.
        compression: Seq<Seq<char>>,
    },
    /// Validate the partial file.
    Validate {
        directory: Seq<u8>,
        package: Seq<u8>,
        options: PackageOptions,
        list_path: Seq<u8>,
        partial: Seq<u8>,
    },
    /// Give the partial file its final name and remove the file list.
    Publish {
        directory: Seq<u8>,
        package: Seq<u8>,
        overwrite: bool,
        list_path: Seq<u8>,
        partial: Seq<u8>,
    },
    /// The package is complete.
    Finished { package: Seq<u8> },
}

/// The step of a package creation that is to be made next.
#[derive(Clone, Debug, PartialEq, Eq)]
pub enum PackageBuild {
    /// Check and resolve the package root, make and resolve the directory of
    /// the output.
    Resolve { output: Vec<u8>, options: PackageOptions },
    /// Find out whether something stands at the place of the package.
    Probe {
        root: Vec<u8>,
        directory: Vec<u8>,
        package: Vec<u8>,
        options: PackageOptions,
    },
    /// List the paths below the package root.
    List {
        root: Vec<u8>,
        directory: Vec<u8>,
        package: Vec<u8>,
        options: PackageOptions,
    },
    /// Write a file list to a new file in the directory.
    WriteList {
        root: Vec<u8>,
        directory: Vec<u8>,
        package: Vec<u8>,
        options: PackageOptions,
        list: Vec<u8>,
    },
    /// Archive and compress to a new partial file in the directory.
    Compress {
        directory: Vec<u8>,
        package: Vec<u8>,
        options: PackageOptions,
        list_path: Vec<u8>,
        /// The arguments of `bsdtar`.
        arguments: Vec<Vec<u8>>,
        /// The arguments of `zstd`.
        compression: Vec<String>,
    },
    /// Validate the partial file.
    Validate {
        directory: Vec<u8>,
        package: Vec<u8>,
        options: PackageOptions,
        list_path: Vec<u8>,
        partial: Vec<u8>,
    },
    /// Give the partial file its final name and remove the file list.
    Publish {
        directory: Vec<u8>,
        package: Vec<u8>,
        overwrite: bool,
        list_path: Vec<u8>,
        partial: Vec<u8>,
    },
    /// The package is complete.
    Finished { package: Vec<u8> },
}

impl DeepView for PackageBuild {
    type V = BuildModel;

    open spec fn deep_view(&self) -> BuildModel {
        match self {
            PackageBuild::Resolve { output, options } => BuildModel::Resolve {
                output: output@,
                options: *options,
            },
            PackageBuild::Probe { root, directory, package, options } => BuildModel::Probe {
                root: root@,
                directory: directory@,
                package: package@,
                options: *options,
            },
            PackageBuild::List { root, directory, package, options } => BuildModel::List {
                root: root@,
                directory: directory@,
                package: package@,
                options: *options,
            },
            PackageBuild::WriteList { root, directory, package, options, list } =>
            BuildModel::WriteList {
                root: root@,
                directory: directory@,
                package: package@,
                options: *options,
                list: list@,
            },
            PackageBuild::Compress {
                directory,
                package,
                options,
                list_path,
                arguments,
                compression,
            } => BuildModel::Compress {
                directory: directory@,
                package: package@,
                options: *options,
                list_path: list_path@,
                arguments: byte_lists(arguments@),
                compression: compression.deep_view(),
            },
            PackageBuild::Validate { directory, package, options, list_path, partial } =>
            BuildModel::Validate {
                directory: directory@,
                package: package@,
                options: *options,
                list_path: list_path@,
                partial: partial@,
            },
            PackageBuild::Publish { directory, package, overwrite, list_path, partial } =>
            BuildModel::Publish {
                directory: directory@,
                package: package@,
                overwrite: *overwrite,
                list_path: list_path@,
                partial: partial@,
            },
            PackageBuild::Finished { package } => BuildModel::Finished { package: package@ },
        }
    }
}

/// What a step gave.
pub enum BuildEvent {
    Resolved { root: Seq<u8>, directory: Seq<u8> },
    Exists(bool),
    Files(Seq<Seq<u8>>),
    Created(Seq<u8>),
    Checked(PackageCheck),
    Done,
}

/// What a step gave.
#[derive(Clone, Debug, PartialEq, Eq)]
pub enum BuildReply {
    /// The resolved package root and the resolved directory of the output.
    Resolved { root: Vec<u8>, directory: Vec<u8> },
    /// Whether something stands at the probed place.
    Exists(bool),
    /// The paths below the package root, relative to it and in any order.
    Files(Vec<Vec<u8>>),
    /// The path of the new file.
    Created(Vec<u8>),
    /// How the validation of the partial file went.
    Checked(PackageCheck),
    /// The step was made.
    Done,
}

impl DeepView for BuildReply {
    type V = BuildEvent;

    open spec fn deep_view(&self) -> BuildEvent {
        match self {
            BuildReply::Resolved { root, directory } => BuildEvent::Resolved {
                root: root@,
                directory: directory@,
            },
            BuildReply::Exists(exists) => BuildEvent::Exists(*exists),
            BuildReply::Files(files) => BuildEvent::Files(byte_lists(files@)),
            BuildReply::Created(path) => BuildEvent::Created(path@),
            BuildReply::Checked(check) => BuildEvent::Checked(*check),
            BuildReply::Done => BuildEvent::Done,
        }
    }
}

/// The event can come of the step.
pub open spec fn build_answers(step: BuildModel, event: BuildEvent) -> bool {
    match step {
        BuildModel::Resolve { .. } => event is Resolved,
        BuildModel::Probe { .. } => event is Exists,
        BuildModel::List { .. } => event is Files,
        BuildModel::WriteList { .. } => event is Created,
        BuildModel::Compress { .. } => event is Created,
        BuildModel::Validate { .. } => event is Checked,
        BuildModel::Publish { .. } => event is Done,
        BuildModel::Finished { .. } => false,
    }
}

/// The fault of the name of a package.
pub open spec fn package_name_fault(output: Seq<u8>) -> Option<Seq<char>> {
    match name_of(output) {
        None => Some("package output has no file name: "@ + lossy_text(output)),
        Some(name) => if finishes_with(name, encode_utf8(".pkg.tar.zst"@)) {
            None
        } else {
            Some("package output must end in .pkg.tar.zst: "@ + lossy_text(output))
        },
    }
}

/// A path of the sorted list as it stands in the archive.
pub open spec fn archive_path(path: Seq<u8>) -> Seq<u8> {
    if begins_with(path, encode_utf8("./"@)) {
        path.skip(encode_utf8("./"@).len() as int)
    } else {
        path
    }
}

/// The paths of the archive.
pub open spec fn archive_paths(relative: Seq<Seq<u8>>) -> Seq<Seq<u8>> {
    sorted_file_list(relative).map_values(|path: Seq<u8>| archive_path(path))
}

/// The arguments of `bsdtar` that archive a package root.
pub open spec fn package_arguments(root: Seq<u8>, list_path: Seq<u8>, epoch: Option<i64>) -> Seq<
    Seq<u8>,
> {
    encoded(
        seq![
            "-cnf"@,
            "-"@,
            "--no-fflags"@,
            "--no-read-sparse"@,
            "--uid"@,
            "0"@,
            "--gid"@,
            "0"@,
            "--uname"@,
            "root"@,
            "--gname"@,
            "root"@,
            "--no-recursion"@,
            "-C"@,
        ],
    ).push(root) + encoded(seq!["--null"@, "--files-from"@]).push(list_path) + time_arguments(epoch)
}

/// The first step of a package creation.
pub open spec fn first_build_step(output: Seq<u8>, options: PackageOptions) -> Outcome<BuildModel> {
    match epoch_fault(options.source_date_epoch) {
        Some(message) => Err(message),
        None => match package_name_fault(output) {
            Some(message) => Err(message),
            None => Ok(BuildModel::Resolve { output, options }),
        },
    }
}

/// The step after the package root and the output directory were resolved.
pub open spec fn after_resolve(
    output: Seq<u8>,
    options: PackageOptions,
    root: Seq<u8>,
    directory: Seq<u8>,
) -> Outcome<BuildModel> {
    if is_under(directory, root) {
        Err("the package output directory must be outside the package root"@)
    } else {
        match name_of(output) {
            None => Err("package output has no file name: "@ + lossy_text(output)),
            Some(name) => Ok(
                BuildModel::Probe {
                    root,
                    directory,
                    package: joined_path(directory, name),
                    options,
                },
            ),
        }
    }
}

/// The step after another step gave an event.
pub open spec fn next_build_step(step: BuildModel, event: BuildEvent) -> Outcome<BuildModel> {
    match (step, event) {
        (
            BuildModel::Resolve { output, options },
            BuildEvent::Resolved { root, directory },
        ) => after_resolve(output, options, root, directory),
        (BuildModel::Probe { root, directory, package, options }, BuildEvent::Exists(exists)) =>
        if exists && !options.overwrite {
            Err("package output already exists: "@ + lossy_text(package))
        } else {
            Ok(BuildModel::List { root, directory, package, options })
        },
        (BuildModel::List { root, directory, package, options }, BuildEvent::Files(files)) =>
        if files.len() == 0 {
            Err("cannot create a package from an empty root"@)
        } else {
            match nul_list(archive_paths(files)) {
                Err(message) => Err(message),
                Ok(list) => Ok(BuildModel::WriteList { root, directory, package, options, list }),
            }
        },
        (
            BuildModel::WriteList { root, directory, package, options, .. },
            BuildEvent::Created(list_path),
        ) => match level_fault(options.zstd_level) {
            Some(message) => Err(message),
            None => Ok(
                BuildModel::Compress {
                    directory,
                    package,
                    options,
                    list_path,
                    arguments: package_arguments(root, list_path, options.source_date_epoch),
                    compression: zstd_words(options.zstd_level),
                },
            ),
        },
        (
            BuildModel::Compress { directory, package, options, list_path, .. },
            BuildEvent::Created(partial),
        ) => Ok(
            if options.validate_with_pacman {
                BuildModel::Validate { directory, package, options, list_path, partial }
            } else {
                BuildModel::Publish {
                    directory,
                    package,
                    overwrite: options.overwrite,
                    list_path,
                    partial,
                }
            },
        ),
        (
            BuildModel::Validate { directory, package, options, list_path, partial },
            BuildEvent::Checked(check),
        ) => match validation_of(lossy_text(partial), check) {
            Err(message) => Err(message),
            Ok(_) => Ok(
                BuildModel::Publish {
                    directory,
                    package,
                    overwrite: options.overwrite,
                    list_path,
                    partial,
                },
            ),
        },
        (BuildModel::Publish { package, .. }, BuildEvent::Done) => Ok(
            BuildModel::Finished { package },
        ),
        (other, _) => Ok(other),
    }
}

// ---------------------------------------------------------------------------
// Machine
// ---------------------------------------------------------------------------
fn shown_error(start: &str, path: &[u8]) -> (result: AppError)
    ensures
        result@ == start@ + lossy_text(path@),
{
    AppError::new(String::from_str(start).concat(display(path).as_str()))
}

/// Require the name of a package file.
pub fn validate_package_suffix(output: &[u8]) -> (result: Result<()>)
    ensures
        outcome(result) == match package_name_fault(output@) {
            Some(message) => Err::<(), Seq<char>>(message),
            None => Ok(()),
        },
{
    match file_name(output) {
        None => Err(shown_error("package output has no file name: ", output)),
        Some(name) => if has_end(name, ".pkg.tar.zst".as_bytes()) {
            Ok(())
        } else {
            Err(shown_error("package output must end in .pkg.tar.zst: ", output))
        },
    }
}

fn strip_dots(paths: &Vec<Vec<u8>>) -> (result: Vec<Vec<u8>>)
    ensures
        byte_lists(result@) == byte_lists(paths@).map_values(
            |path: Seq<u8>| archive_path(path),
        ),
{
    let mut stripped: Vec<Vec<u8>> = Vec::new();
    for index in 0..paths.len()
        invariant
            stripped@.len() == index,
            forall|at: int|
                0 <= at < index ==> (#[trigger] stripped@[at])@ == archive_path(paths@[at]@),
    {
        let path = paths[index].as_slice();
        let dot = "./".as_bytes();
        if has_start(path, dot) {
            let rest = slice_subrange(path, dot.len(), path.len());
            assert(rest@ == path@.skip(dot@.len() as int));
            stripped.push(copy(rest));
        } else {
            stripped.push(copy(path));
        }
    }
    assert(byte_lists(stripped@) =~= byte_lists(paths@).map_values(
        |path: Seq<u8>| archive_path(path),
    ));
    stripped
}

fn archive_arguments(root: &[u8], list_path: &[u8], epoch: Option<i64>) -> (result: Vec<Vec<u8>>)
    ensures
        byte_lists(result@) == package_arguments(root@, list_path@, epoch),
{
    let mut arguments: Vec<Vec<u8>> = Vec::new();
    assert(byte_lists(arguments@) =~= seq![]);
    let start: [&str; 14] = [
        "-cnf",
        "-",
        "--no-fflags",
        "--no-read-sparse",
        "--uid",
        "0",
        "--gid",
        "0",
        "--uname",
        "root",
        "--gname",
        "root",
        "--no-recursion",
        "-C",
    ];
    push_arguments(&mut arguments, vstd::array::array_as_slice(&start));
    let ghost first = byte_lists(arguments@);
    arguments.push(copy(root));
    assert(byte_lists(arguments@) =~= first.push(root@));
    let end: [&str; 2] = ["--null", "--files-from"];
    push_arguments(&mut arguments, vstd::array::array_as_slice(&end));
    let ghost second = byte_lists(arguments@);
    arguments.push(copy(list_path));
    assert(byte_lists(arguments@) =~= second.push(list_path@));
    push_time(&mut arguments, epoch);
    proof {
        assert(str_views(start@) =~= seq![
            "-cnf"@,
            "-"@,
            "--no-fflags"@,
            "--no-read-sparse"@,
            "--uid"@,
            "0"@,
            "--gid"@,
            "0"@,
            "--uname"@,
            "root"@,
            "--gname"@,
            "root"@,
            "--no-recursion"@,
            "-C"@,
        ]);
        assert(str_views(end@) =~= seq!["--null"@, "--files-from"@]);
        assert(byte_lists(arguments@) =~= package_arguments(root@, list_path@, epoch));
    }
    arguments
}

/// Start the creation of an Arch package with explicit timestamp and
/// publication options.
pub fn create_package_with_options(output: &[u8], options: PackageOptions) -> (result: Result<
    PackageBuild,
>)
    ensures
        outcome(result) == first_build_step(output@, options),
{
    validate_epoch(options.source_date_epoch)?;
    validate_package_suffix(output)?;
    Ok(PackageBuild::Resolve { output: copy(output), options })
}

/// Start the creation of a root-owned restricted-pax `.pkg.tar.zst` without
/// replacement.
pub fn create_package(output: &[u8], zstd_level: i32) -> (result: Result<PackageBuild>)
    ensures
        outcome(result) == first_build_step(
            output@,
            (PackageOptions {
                zstd_level,
                source_date_epoch: None,
                overwrite: false,
                validate_with_pacman: false,
            }),
        ),
{
    let options = PackageOptions {
        zstd_level,
        source_date_epoch: None,
        overwrite: false,
        validate_with_pacman: false,
    };
    create_package_with_options(output, options)
}

impl PackageBuild {
    /// Go on after the step was made.
    pub fn advance(self, reply: BuildReply) -> (result: Result<PackageBuild>)
        requires
            build_answers(self.deep_view(), reply.deep_view()),
        ensures
            outcome(result) == next_build_step(self.deep_view(), reply.deep_view()),
    {
        match (self, reply) {
            (
                PackageBuild::Resolve { output, options },
                BuildReply::Resolved { root, directory },
            ) => {
                if starts_with_path(directory.as_slice(), root.as_slice()) {
                    return Err(
                        failure("the package output directory must be outside the package root"),
                    );
                }
                match file_name(output.as_slice()) {
                    None => Err(
                        shown_error("package output has no file name: ", output.as_slice()),
                    ),
                    Some(name) => {
                        let package = join_path(directory.as_slice(), name);
                        Ok(PackageBuild::Probe { root, directory, package, options })
                    },
                }
            },
            (
                PackageBuild::Probe { root, directory, package, options },
                BuildReply::Exists(exists),
            ) => {
                if exists && !options.overwrite {
                    return Err(
                        shown_error("package output already exists: ", package.as_slice()),
                    );
                }
                Ok(PackageBuild::List { root, directory, package, options })
            },
            (
                PackageBuild::List { root, directory, package, options },
                BuildReply::Files(files),
            ) => {
                assert(byte_lists(files@).len() == files@.len());
                if files.len() == 0 {
                    return Err(failure("cannot create a package from an empty root"));
                }
                let paths = strip_dots(&collect_sorted_file_list(&files));
                let list = paths_to_nul_bytes(&paths)?;
                Ok(PackageBuild::WriteList { root, directory, package, options, list })
            },
            (
                PackageBuild::WriteList { root, directory, package, options, list: _ },
                BuildReply::Created(list_path),
            ) => {
                let compression = zstd_arguments(options.zstd_level)?;
                let arguments = archive_arguments(
                    root.as_slice(),
                    list_path.as_slice(),
                    options.source_date_epoch,
                );
                Ok(
                    PackageBuild::Compress {
                        directory,
                        package,
                        options,
                        list_path,
                        arguments,
                        compression,
                    },
                )
            },
            (
                PackageBuild::Compress {
                    directory,
                    package,
                    options,
                    list_path,
                    arguments: _,
                    compression: _,
                },
                BuildReply::Created(partial),
            ) => if options.validate_with_pacman {
                Ok(PackageBuild::Validate { directory, package, options, list_path, partial })
            } else {
                Ok(
                    PackageBuild::Publish {
                        directory,
                        package,
                        overwrite: options.overwrite,
                        list_path,
                        partial,
                    },
                )
            },
            (
                PackageBuild::Validate { directory, package, options, list_path, partial },
                BuildReply::Checked(check),
            ) => {
                let shown = display(partial.as_slice());
                validate_package(shown.as_str(), check)?;
                Ok(
                    PackageBuild::Publish {
                        directory,
                        package,
                        overwrite: options.overwrite,
                        list_path,
                        partial,
                    },
                )
            },
            (
                PackageBuild::Publish {
                    directory: _,
                    package,
                    overwrite: _,
                    list_path: _,
                    partial: _,
                },
                BuildReply::Done,
            ) => Ok(PackageBuild::Finished { package }),
            (other, _) => Ok(other),
        }
    }
}

// ---------------------------------------------------------------------------
// Laws
// ---------------------------------------------------------------------------
/// The steps that a package creation goes through.
pub open spec fn build_run(step: BuildModel, events: Seq<BuildEvent>) -> Outcome<BuildModel>
    decreases events.len(),
{
    if events.len() == 0 {
        Ok(step)
    } else {
        match build_run(step, events.drop_last()) {
            Err(message) => Err(message),
            Ok(before) => if build_answers(before, events.last()) {
                next_build_step(before, events.last())
            } else {
                Ok(before)
            },
        }
    }
}

/// What the step keeps of the options.
pub open spec fn keeps_overwrite(step: BuildModel, overwrite: bool) -> bool {
    match step {
        BuildModel::Resolve { options, .. } => options.overwrite == overwrite,
        BuildModel::Probe { options, .. } => options.overwrite == overwrite,
        BuildModel::List { options, .. } => options.overwrite == overwrite,
        BuildModel::WriteList { options, .. } => options.overwrite == overwrite,
        BuildModel::Compress { options, .. } => options.overwrite == overwrite,
        BuildModel::Validate { options, .. } => options.overwrite == overwrite,
        BuildModel::Publish { overwrite: keep, .. } => keep == overwrite,
        BuildModel::Finished { .. } => true,
    }
}

/// A package is published by replacement only if the options ask for it.
pub proof fn packages_are_not_replaced_unasked(
    output: Seq<u8>,
    options: PackageOptions,
    events: Seq<BuildEvent>,
)
    requires
        first_build_step(output, options) is Ok,
    ensures
        build_run(first_build_step(output, options)->Ok_0, events) matches Ok(step)
            ==> keeps_overwrite(step, options.overwrite),
    decreases events.len(),
{
    if events.len() > 0 {
        packages_are_not_replaced_unasked(output, options, events.drop_last());
    }
}

/// Without the option to replace, the run ends when something stands in the
/// place of the package.
pub proof fn an_existing_package_is_refused(
    root: Seq<u8>,
    directory: Seq<u8>,
    package: Seq<u8>,
    options: PackageOptions,
)
    requires
        !options.overwrite,
    ensures
        next_build_step(
            (BuildModel::Probe { root, directory, package, options }),
            BuildEvent::Exists(true),
        ) is Err,
{
}

/// The validation found no fault: pacman accepted the package, or it is not
/// there.
pub open spec fn is_accepted(check: PackageCheck) -> bool {
    match check {
        PackageCheck::NotAFile => false,
        PackageCheck::PacmanMissing => true,
        PackageCheck::Asked { output, .. } => output.status == Some(0i32),
    }
}

/// A package that is to be validated is published only after a validation that
/// found no fault: no other step leads to its publication.
pub proof fn validation_comes_before_publication(step: BuildModel, event: BuildEvent)
    requires
        build_answers(step, event),
        next_build_step(step, event) matches Ok(BuildModel::Publish { .. }),
    ensures
        match step {
            BuildModel::Validate { .. } => event matches BuildEvent::Checked(check)
                && is_accepted(check),
            BuildModel::Compress { options, .. } => !options.validate_with_pacman,
            _ => false,
        },
{
}

/// The resolved directory of the output is outside the resolved package root.
pub open spec fn shows_outside(event: BuildEvent, directory: Seq<u8>) -> bool {
    match event {
        BuildEvent::Resolved { root, directory: resolved } => resolved == directory && !is_under(
            directory,
            root,
        ),
        _ => false,
    }
}

/// The place of the package is free, or what stands there may be replaced.
pub open spec fn shows_free_place(event: BuildEvent, overwrite: bool) -> bool {
    match event {
        BuildEvent::Exists(found) => !found || overwrite,
        _ => false,
    }
}

/// There is something below the package root.
pub open spec fn shows_files(event: BuildEvent) -> bool {
    match event {
        BuildEvent::Files(files) => files.len() > 0,
        _ => false,
    }
}

/// The package was validated without a fault.
pub open spec fn shows_acceptance(event: BuildEvent) -> bool {
    match event {
        BuildEvent::Checked(check) => is_accepted(check),
        _ => false,
    }
}

/// Some event shows a directory outside the package root.
pub open spec fn was_outside(events: Seq<BuildEvent>, directory: Seq<u8>) -> bool {
    exists|at: int| 0 <= at < events.len() && #[trigger] shows_outside(events[at], directory)
}

/// Some event shows a free place.
pub open spec fn was_free(events: Seq<BuildEvent>, overwrite: bool) -> bool {
    exists|at: int| 0 <= at < events.len() && #[trigger] shows_free_place(events[at], overwrite)
}

/// Some event shows files.
pub open spec fn had_files(events: Seq<BuildEvent>) -> bool {
    exists|at: int| 0 <= at < events.len() && #[trigger] shows_files(events[at])
}

/// Some event shows that the package is valid.
pub open spec fn was_accepted(events: Seq<BuildEvent>) -> bool {
    exists|at: int| 0 <= at < events.len() && #[trigger] shows_acceptance(events[at])
}

/// The package stands under the name of the output in a directory outside the
/// package root.
pub open spec fn is_placed(
    output: Seq<u8>,
    directory: Seq<u8>,
    package: Seq<u8>,
    events: Seq<BuildEvent>,
) -> bool {
    &&& name_of(output) matches Some(name) && package == joined_path(directory, name)
    &&& was_outside(events, directory)
}

/// There is something to pack, and a place to put it.
pub open spec fn can_be_packed(
    output: Seq<u8>,
    directory: Seq<u8>,
    package: Seq<u8>,
    options: PackageOptions,
    events: Seq<BuildEvent>,
) -> bool {
    &&& is_placed(output, directory, package, events)
    &&& was_free(events, options.overwrite)
    &&& had_files(events)
}

/// The package can be packed and compressed, and it is valid where that is to
/// be tested.
pub open spec fn can_be_published(
    output: Seq<u8>,
    directory: Seq<u8>,
    package: Seq<u8>,
    options: PackageOptions,
    events: Seq<BuildEvent>,
) -> bool {
    &&& can_be_packed(output, directory, package, options, events)
    &&& 1 <= options.zstd_level <= 22
    &&& options.validate_with_pacman ==> was_accepted(events)
}

/// What a step of a package creation rests on.
pub open spec fn rests_on(
    step: BuildModel,
    output: Seq<u8>,
    options: PackageOptions,
    events: Seq<BuildEvent>,
) -> bool {
    match step {
        BuildModel::Resolve { output: kept, options: asked } => kept == output && asked == options,
        BuildModel::Probe { directory, package, options: asked, .. } => asked == options
            && is_placed(output, directory, package, events),
        BuildModel::List { directory, package, options: asked, .. } => asked == options
            && is_placed(output, directory, package, events) && was_free(
            events,
            options.overwrite,
        ),
        BuildModel::WriteList { directory, package, options: asked, .. } => asked == options
            && can_be_packed(output, directory, package, options, events),
        BuildModel::Compress { directory, package, options: asked, .. } => asked == options
            && can_be_packed(output, directory, package, options, events) && 1
            <= options.zstd_level <= 22,
        BuildModel::Validate { directory, package, options: asked, .. } => asked == options
            && can_be_packed(output, directory, package, options, events) && 1
            <= options.zstd_level <= 22,
        BuildModel::Publish { directory, package, .. } => can_be_published(
            output,
            directory,
            package,
            options,
            events,
        ),
        BuildModel::Finished { package } => exists|directory: Seq<u8>| #[trigger]
            can_be_published(output, directory, package, options, events),
    }
}

proof fn lemma_events_stay(events: Seq<BuildEvent>, directory: Seq<u8>, overwrite: bool)
    requires
        events.len() > 0,
    ensures
        was_outside(events.drop_last(), directory) ==> was_outside(events, directory),
        was_free(events.drop_last(), overwrite) ==> was_free(events, overwrite),
        had_files(events.drop_last()) ==> had_files(events),
        was_accepted(events.drop_last()) ==> was_accepted(events),
{
    let before = events.drop_last();
    if was_outside(before, directory) {
        let at = choose|at: int|
            0 <= at < before.len() && #[trigger] shows_outside(before[at], directory);
        assert(shows_outside(events[at], directory));
    }
    if was_free(before, overwrite) {
        let at = choose|at: int|
            0 <= at < before.len() && #[trigger] shows_free_place(before[at], overwrite);
        assert(shows_free_place(events[at], overwrite));
    }
    if had_files(before) {
        let at = choose|at: int| 0 <= at < before.len() && #[trigger] shows_files(before[at]);
        assert(shows_files(events[at]));
    }
    if was_accepted(before) {
        let at = choose|at: int| 0 <= at < before.len() && #[trigger] shows_acceptance(before[at]);
        assert(shows_acceptance(events[at]));
    }
}

proof fn lemma_step_rests(
    step: BuildModel,
    output: Seq<u8>,
    options: PackageOptions,
    events: Seq<BuildEvent>,
)
    requires
        events.len() > 0,
        rests_on(step, output, options, events.drop_last()),
    ensures
        rests_on(step, output, options, events),
{
    match step {
        BuildModel::Resolve { .. } => {},
        BuildModel::Probe { directory, .. } => {
            lemma_events_stay(events, directory, options.overwrite);
        },
        BuildModel::List { directory, .. } => {
            lemma_events_stay(events, directory, options.overwrite);
        },
        BuildModel::WriteList { directory, .. } => {
            lemma_events_stay(events, directory, options.overwrite);
        },
        BuildModel::Compress { directory, .. } => {
            lemma_events_stay(events, directory, options.overwrite);
        },
        BuildModel::Validate { directory, .. } => {
            lemma_events_stay(events, directory, options.overwrite);
        },
        BuildModel::Publish { directory, .. } => {
            lemma_events_stay(events, directory, options.overwrite);
        },
        BuildModel::Finished { package } => {
            let directory = choose|directory: Seq<u8>| #[trigger]
                can_be_published(output, directory, package, options, events.drop_last());
            lemma_events_stay(events, directory, options.overwrite);
            assert(can_be_published(output, directory, package, options, events));
        },
    }
}

#[verifier::spinoff_prover]
proof fn lemma_next_step_rests(
    step: BuildModel,
    output: Seq<u8>,
    options: PackageOptions,
    events: Seq<BuildEvent>,
    next: BuildModel,
)
    requires
        events.len() > 0,
        rests_on(step, output, options, events),
        build_answers(step, events.last()),
        next_build_step(step, events.last()) == Ok::<BuildModel, Seq<char>>(next),
    ensures
        rests_on(next, output, options, events),
{
    let last = events.len() - 1;
    match step {
        BuildModel::Resolve { .. } => {
            let directory = events.last()->directory;
            assert(shows_outside(events[last], directory));
        },
        BuildModel::Probe { .. } => {
            assert(shows_free_place(events[last], options.overwrite));
            assert(next is List);
        },
        BuildModel::List { .. } => {
            assert(shows_files(events[last]));
            assert(next is WriteList);
        },
        BuildModel::WriteList { .. } => {
            assert(next is Compress);
        },
        BuildModel::Compress { .. } => {
            assert(next is Validate || next is Publish);
        },
        BuildModel::Validate { .. } => {
            assert(shows_acceptance(events[last]));
            assert(next is Publish);
        },
        BuildModel::Publish { directory, package, .. } => {
            assert(next == BuildModel::Finished { package });
            assert(can_be_published(output, directory, next->Finished_package, options, events));
        },
        BuildModel::Finished { .. } => {},
    }
}

/// A package is complete only if its name is that of a package, its place was
/// free or may be replaced and lies outside the package root, the root holds
/// something, the compression level is valid, and the package was validated
/// where that was asked for.
pub proof fn complete_packages_passed_every_check(
    output: Seq<u8>,
    options: PackageOptions,
    events: Seq<BuildEvent>,
)
    requires
        first_build_step(output, options) is Ok,
    ensures
        package_name_fault(output) is None,
        build_run(first_build_step(output, options)->Ok_0, events) matches Ok(step) ==> rests_on(
            step,
            output,
            options,
            events,
        ),
    decreases events.len(),
{
    if events.len() > 0 {
        complete_packages_passed_every_check(output, options, events.drop_last());
        let before = build_run(first_build_step(output, options)->Ok_0, events.drop_last());
        if before is Ok {
            lemma_step_rests(before->Ok_0, output, options, events);
            let next = next_build_step(before->Ok_0, events.last());
            if build_answers(before->Ok_0, events.last()) && next is Ok {
                lemma_next_step_rests(before->Ok_0, output, options, events, next->Ok_0);
            }
        }
    }
}

} // verus!
