//! The conversion of a Debian package, one step at a time.

use vstd::prelude::*;
use vstd::utf8::{decode_utf8, encode_utf8, valid_utf8};

use crate::archive::package::PackageOptions;
use crate::bytes::{byte_lists, copy, optional_bytes};
use crate::cli::{ConvertModel, ConvertOptions, PkgbuildMode};
use crate::compatibility::report::{report_warnings, CompatibilityReport};
use crate::control::metadata::{
    arch_architecture, map_architecture, metadata_of, DebianMetadata, MetadataModel,
};
use crate::control::paragraph::{control_of, DebianControl};
use crate::conversion::job::{
    BuildJob, BuildJobModel, ContentJob, ContentJobModel, DebianJob, DebianJobModel, PayloadJob,
    PayloadJobModel, Source, SourceModel,
};
use crate::conversion::package::{
    archive_epoch, epoch_to_i64, package_file_name, package_metadata, package_of,
};
use crate::conversion::relations::{arch_relations, resolve_relations, RelationsModel};
use crate::dependency::catalog::{loaded_catalog, PackageCatalog, PacmanReply};
use crate::dependency::resolver::{DependencyResolver, ResolverModel};
use crate::digest::{is_sha256, sha256_text};
use crate::encoding::{decode, lemma_decoded, lossy_text};
use crate::error::{failure, outcome, AppError, Outcome, Result};
use crate::lists::{push_all_unique, push_copies, with_all_unique};
use crate::paths::{display, join_path, joined_path};
use crate::pieces::{split_words, texts, words};
use crate::text::{chars, equal, string};
use crate::transform::report::TransformReport;

verus! {

// ---------------------------------------------------------------------------
// Steps
// ---------------------------------------------------------------------------
/// The step of a conversion that is to be made next.
pub enum ConversionModel {
    /// Resolve the path of the Debian package.
    Resolve(ConvertModel),
    /// Make the output directory and a workspace, and read the control file.
    ReadControl(SourceModel),
    /// Ask pacman for the known packages.
    LoadCatalog(DebianJobModel),
    /// Extract the payload and look for reserved paths in it.
    ExtractPayload(PayloadJobModel),
    /// Give the payload the layout of an Arch package.
    NormalizePayload(PayloadJobModel),
    /// Look at the files of the payload, which are built for an architecture.
    InspectPayload { job: ContentJobModel, architecture: Seq<char> },
    /// Make the install script.
    GenerateScript(ContentJobModel),
    /// Read the clock.
    ReadClock { job: ContentJobModel, install: Option<Seq<char>> },
    /// Look whether the package exists.
    Probe(BuildJobModel),
    /// Write the metadata and the install script into the payload.
    Describe(BuildJobModel),
    /// Write the index of the files.
    Index { job: BuildJobModel, epoch: Option<i64> },
    /// Write the package.
    Pack { job: BuildJobModel, options: PackageOptions },
    /// Remove the PKGBUILD directory if it may be replaced, and hash the Debian
    /// package.
    HashInput { job: BuildJobModel, created: Seq<Seq<u8>>, directory: Seq<u8> },
    /// Write the PKGBUILD.
    WritePkgbuild {
        job: BuildJobModel,
        created: Seq<Seq<u8>>,
        directory: Seq<u8>,
        digest: Seq<char>,
        data_member: Seq<char>,
    },
    /// Show the warnings and the files that were made.
    Finished { warnings: Seq<Seq<char>>, created: Seq<Seq<u8>> },
}

/// The step of a conversion that is to be made next.
#[derive(Debug, Clone, PartialEq, Eq)]
pub enum Conversion {
    /// Resolve the path of the Debian package.
    Resolve(ConvertOptions),
    /// Make the output directory and a workspace, and read the control file.
    ReadControl(Source),
    /// Ask pacman for the known packages.
    LoadCatalog(DebianJob),
    /// Extract the payload and look for reserved paths in it.
    ExtractPayload(PayloadJob),
    /// Give the payload the layout of an Arch package.
    NormalizePayload(PayloadJob),
    /// Look at the files of the payload, which are built for an architecture.
    InspectPayload { job: ContentJob, architecture: String },
    /// Make the install script.
    GenerateScript(ContentJob),
    /// Read the clock.
    ReadClock { job: ContentJob, install: Option<String> },
    /// Look whether the package exists.
    Probe(BuildJob),
    /// Write the metadata and the install script into the payload.
    Describe(BuildJob),
    /// Write the index of the files.
    Index { job: BuildJob, epoch: Option<i64> },
    /// Write the package.
    Pack { job: BuildJob, options: PackageOptions },
    /// Remove the PKGBUILD directory if it may be replaced, and hash the Debian
    /// package.
    HashInput { job: BuildJob, created: Vec<Vec<u8>>, directory: Vec<u8> },
    /// Write the PKGBUILD.
    WritePkgbuild {
        job: BuildJob,
        created: Vec<Vec<u8>>,
        directory: Vec<u8>,
        digest: String,
        data_member: String,
    },
    /// Show the warnings and the files that were made.
    Finished { warnings: Vec<String>, created: Vec<Vec<u8>> },
}

impl DeepView for Conversion {
    type V = ConversionModel;

    open spec fn deep_view(&self) -> ConversionModel {
        match self {
            Conversion::Resolve(options) => ConversionModel::Resolve(options.deep_view()),
            Conversion::ReadControl(source) => ConversionModel::ReadControl(source.deep_view()),
            Conversion::LoadCatalog(job) => ConversionModel::LoadCatalog(job.deep_view()),
            Conversion::ExtractPayload(job) => ConversionModel::ExtractPayload(job.deep_view()),
            Conversion::NormalizePayload(job) => ConversionModel::NormalizePayload(
                job.deep_view(),
            ),
            Conversion::InspectPayload { job, architecture } => ConversionModel::InspectPayload {
                job: job.deep_view(),
                architecture: architecture@,
            },
            Conversion::GenerateScript(job) => ConversionModel::GenerateScript(job.deep_view()),
            Conversion::ReadClock { job, install } => ConversionModel::ReadClock {
                job: job.deep_view(),
                install: install.deep_view(),
            },
            Conversion::Probe(job) => ConversionModel::Probe(job.deep_view()),
            Conversion::Describe(job) => ConversionModel::Describe(job.deep_view()),
            Conversion::Index { job, epoch } => ConversionModel::Index {
                job: job.deep_view(),
                epoch: *epoch,
            },
            Conversion::Pack { job, options } => ConversionModel::Pack {
                job: job.deep_view(),
                options: *options,
            },
            Conversion::HashInput { job, created, directory } => ConversionModel::HashInput {
                job: job.deep_view(),
                created: byte_lists(created@),
                directory: directory@,
            },
            Conversion::WritePkgbuild { job, created, directory, digest, data_member } =>
                ConversionModel::WritePkgbuild {
                job: job.deep_view(),
                created: byte_lists(created@),
                directory: directory@,
                digest: digest@,
                data_member: data_member@,
            },
            Conversion::Finished { warnings, created } => ConversionModel::Finished {
                warnings: warnings.deep_view(),
                created: byte_lists(created@),
            },
        }
    }
}

/// Which of the paths that an Arch package reserves are in a payload.
#[derive(Debug, Clone, Copy, PartialEq, Eq)]
pub struct ReservedPaths {
    pub pkginfo: bool,
    pub buildinfo: bool,
    pub mtree: bool,
    pub install: bool,
}

/// What a step gave.
#[derive(Debug, Clone, PartialEq, Eq)]
pub enum ConversionReply {
    /// The resolved path, its parent, and whether it is a regular file.
    Resolved { input: Vec<u8>, parent: Option<Vec<u8>>, is_file: bool },
    /// The text of the control file and the name of the data archive.
    Control { text: String, data_member: Vec<u8> },
    /// How the queries for the available and the installed packages ended.
    Catalog { available: PacmanReply, installed: PacmanReply },
    /// Which reserved paths are in the payload.
    Reserved(ReservedPaths),
    /// What the change of the payload gave.
    Transformed(TransformReport),
    /// What was found in the payload.
    Inspected(CompatibilityReport),
    /// The install script, and warnings about the maintainer scripts.
    Script { install: Option<String>, warnings: Vec<String> },
    /// The time in seconds.
    Time(u64),
    /// Whether the package exists.
    Exists(bool),
    /// What the tool printed.
    Text(String),
    /// The path of the file that was written.
    Written(Vec<u8>),
    /// The step is made.
    Done,
}

/// The reply fits the step.
pub open spec fn conversion_answers(step: ConversionModel, reply: ConversionReply) -> bool {
    match step {
        ConversionModel::Resolve(_) => reply is Resolved,
        ConversionModel::ReadControl(_) => reply is Control,
        ConversionModel::LoadCatalog(_) => reply is Catalog,
        ConversionModel::ExtractPayload(_) => reply is Reserved,
        ConversionModel::NormalizePayload(_) => reply is Transformed,
        ConversionModel::InspectPayload { .. } => reply is Inspected,
        ConversionModel::GenerateScript(_) => reply is Script,
        ConversionModel::ReadClock { .. } => reply is Time,
        ConversionModel::Probe(_) => reply is Exists,
        ConversionModel::Describe(_) => reply is Done,
        ConversionModel::Index { .. } => reply is Done,
        ConversionModel::Pack { .. } => reply is Done,
        ConversionModel::HashInput { .. } => reply is Text,
        ConversionModel::WritePkgbuild { .. } => reply is Written,
        ConversionModel::Finished { .. } => false,
    }
}

// ---------------------------------------------------------------------------
// Transitions
// ---------------------------------------------------------------------------
/// The directory that the output goes to.
pub open spec fn output_place(parent: Option<Seq<u8>>, configured: Option<Seq<u8>>) -> Outcome<
    Seq<u8>,
> {
    match configured {
        Some(directory) => Ok(directory),
        None => match parent {
            Some(directory) => Ok(directory),
            None => Err("The Debian package has no parent directory."@),
        },
    }
}

/// The metadata as the pseudo mode changes it.
pub open spec fn pseudo_metadata(pseudo: bool, debian: MetadataModel) -> MetadataModel {
    if pseudo && debian.architecture == "i686"@ {
        MetadataModel { architecture: "x86_64"@, ..debian }
    } else {
        debian
    }
}

/// The Arch architecture that the payload of a package is built for.  The pseudo
/// mode does not change it, for it changes no file.
pub open spec fn payload_architecture_of(debian: MetadataModel) -> Seq<char> {
    match arch_architecture(debian.debian_architecture) {
        Some(architecture) => architecture,
        None => debian.architecture,
    }
}

/// The warnings of the pseudo mode.
pub open spec fn pseudo_warnings(pseudo: bool, debian: MetadataModel) -> Seq<Seq<char>> {
    if !pseudo {
        seq![]
    } else if debian.architecture == "i686"@ {
        seq![
            "Pseudo mode changed the output architecture from i686 to x86_64. Payload binaries remain 32-bit."@,
        ]
    } else {
        seq![
            "Pseudo mode has no effect on Debian architecture '"@ + debian.debian_architecture
                + "'."@,
        ]
    }
}

/// The metadata that a control file gives.
pub open spec fn accepted_metadata(text: Seq<char>) -> Outcome<MetadataModel> {
    match control_of(text) {
        Err(message) => Err(message),
        Ok(fields) => metadata_of(fields),
    }
}

/// The step after the control file was read.
pub open spec fn after_control(
    source: SourceModel,
    text: Seq<char>,
    data_member: Seq<u8>,
) -> Outcome<ConversionModel> {
    match accepted_metadata(text) {
        Err(message) => Err(message),
        Ok(debian) => Ok(
            ConversionModel::LoadCatalog(
                DebianJobModel {
                    source,
                    data_member,
                    debian: pseudo_metadata(source.options.pseudo_64, debian),
                    warnings: pseudo_warnings(source.options.pseudo_64, debian),
                },
            ),
        ),
    }
}

/// The resolver for a package architecture and two pacman replies.
pub open spec fn resolver_of(
    architecture: Seq<char>,
    available: PacmanReply,
    installed: PacmanReply,
) -> ResolverModel {
    ResolverModel {
        catalog: loaded_catalog(available, installed),
        target: architecture,
        profiles: Set::empty(),
        mappings: Map::empty(),
    }
}

/// The relations of a package that two pacman replies give.
pub open spec fn resolved_relations(
    debian: MetadataModel,
    available: PacmanReply,
    installed: PacmanReply,
) -> Outcome<RelationsModel> {
    arch_relations(debian, resolver_of(debian.debian_architecture, available, installed))
}

/// The step after the catalog was loaded.
pub open spec fn after_catalog(
    job: DebianJobModel,
    available: PacmanReply,
    installed: PacmanReply,
) -> Outcome<ConversionModel> {
    match resolved_relations(job.debian, available, installed) {
        Err(message) => Err(message),
        Ok(relations) => Ok(
            ConversionModel::ExtractPayload(
                PayloadJobModel {
                    job: DebianJobModel { warnings: job.warnings + relations.warnings, ..job },
                    relations,
                },
            ),
        ),
    }
}

/// The first reserved path that is in a payload.
pub open spec fn reserved_path(paths: ReservedPaths) -> Option<Seq<char>> {
    if paths.pkginfo {
        Some(".PKGINFO"@)
    } else if paths.buildinfo {
        Some(".BUILDINFO"@)
    } else if paths.mtree {
        Some(".MTREE"@)
    } else if paths.install {
        Some(".INSTALL"@)
    } else {
        None
    }
}

/// The job with more warnings.
pub open spec fn warned(job: PayloadJobModel, warnings: Seq<Seq<char>>) -> PayloadJobModel {
    PayloadJobModel {
        job: DebianJobModel { warnings: job.job.warnings + warnings, ..job.job },
        ..job
    }
}

/// The step after the time of the build became known.
pub open spec fn after_time(
    job: ContentJobModel,
    install: Option<Seq<char>>,
    builddate: u64,
) -> Outcome<ConversionModel> {
    let debian_job = job.payload.job;
    match package_of(
        debian_job.debian,
        job.payload.relations,
        job.installed_size,
        job.backups,
        debian_job.source.options.packager,
        builddate,
    ) {
        Err(message) => Err(message),
        Ok(metadata) => Ok(
            ConversionModel::Probe(
                BuildJobModel {
                    source: debian_job.source,
                    data_member: debian_job.data_member,
                    warnings: debian_job.warnings,
                    metadata,
                    install,
                    package: joined_path(
                        debian_job.source.output_dir,
                        encode_utf8(package_file_name(metadata)),
                    ),
                },
            ),
        ),
    }
}

/// The step after the packages were written.
pub open spec fn pkgbuild_step(job: BuildJobModel, created: Seq<Seq<u8>>) -> ConversionModel {
    if job.source.options.pkgbuild == PkgbuildMode::Skip {
        ConversionModel::Finished { warnings: with_all_unique(seq![], job.warnings), created }
    } else {
        ConversionModel::HashInput {
            job,
            created,
            directory: joined_path(
                job.source.output_dir,
                encode_utf8(job.metadata.pkgname + "-PKGBUILD"@),
            ),
        }
    }
}

/// The step after the index was written.
pub open spec fn pack_step(job: BuildJobModel) -> Outcome<ConversionModel> {
    if job.source.options.pkgbuild == PkgbuildMode::Only {
        Ok(pkgbuild_step(job, seq![]))
    } else {
        match archive_epoch(job.source.options.source_date_epoch) {
            Err(message) => Err(message),
            Ok(epoch) => Ok(
                ConversionModel::Pack {
                    job,
                    options: PackageOptions {
                        zstd_level: job.source.options.compression_level as i32,
                        source_date_epoch: epoch,
                        overwrite: job.source.options.force,
                        validate_with_pacman: true,
                    },
                },
            ),
        }
    }
}

/// The step after the metadata was written.
pub open spec fn index_step(job: BuildJobModel) -> Outcome<ConversionModel> {
    if job.source.options.generate_mtree && job.source.options.pkgbuild != PkgbuildMode::Only {
        match archive_epoch(job.source.options.source_date_epoch) {
            Err(message) => Err(message),
            Ok(epoch) => Ok(ConversionModel::Index { job, epoch }),
        }
    } else {
        pack_step(job)
    }
}

/// The digest of the Debian package, as `sha256sum` prints it.
pub open spec fn source_digest(output: Seq<char>) -> Outcome<Seq<char>> {
    if words(output).len() > 0 && is_sha256(words(output)[0]) {
        Ok(words(output)[0])
    } else {
        Err("sha256sum returned an invalid digest."@)
    }
}

/// The step after the path was resolved.
pub open spec fn after_resolve(
    options: ConvertModel,
    input: Seq<u8>,
    parent: Option<Seq<u8>>,
    is_file: bool,
) -> Outcome<ConversionModel> {
    if !is_file {
        Err("The input is not a regular file: "@ + lossy_text(input))
    } else {
        match output_place(parent, options.output_dir) {
            Err(message) => Err(message),
            Ok(output_dir) => Ok(
                ConversionModel::ReadControl(SourceModel { options, input, output_dir }),
            ),
        }
    }
}

/// The step after the payload was extracted.
pub open spec fn after_extraction(job: PayloadJobModel, paths: ReservedPaths) -> Outcome<
    ConversionModel,
> {
    match reserved_path(paths) {
        Some(name) => Err(
            "The Debian payload contains reserved Arch metadata path '"@ + name + "'."@,
        ),
        None => Ok(ConversionModel::NormalizePayload(job)),
    }
}

/// The step after the payload was changed.
pub open spec fn after_change(job: PayloadJobModel, report: TransformReport) -> ConversionModel {
    ConversionModel::InspectPayload {
        job: ContentJobModel {
            payload: warned(job, report.warnings.deep_view()),
            installed_size: report.installed_size,
            backups: report.backup_paths.deep_view(),
        },
        architecture: payload_architecture_of(job.job.debian),
    }
}

/// The step after the payload was inspected.
pub open spec fn after_inspection(
    job: ContentJobModel,
    report: CompatibilityReport,
) -> ConversionModel {
    ConversionModel::GenerateScript(
        ContentJobModel {
            payload: warned(job.payload, report_warnings(report.deep_view())),
            ..job
        },
    )
}

/// The step after the install script was made.
pub open spec fn after_script(
    job: ContentJobModel,
    install: Option<Seq<char>>,
    warnings: Seq<Seq<char>>,
) -> Outcome<ConversionModel> {
    let next = ContentJobModel { payload: warned(job.payload, warnings), ..job };
    match job.payload.job.source.options.source_date_epoch {
        Some(seconds) => after_time(next, install, seconds),
        None => Ok(ConversionModel::ReadClock { job: next, install }),
    }
}

/// The step after it became known whether the package exists.
pub open spec fn after_probe(job: BuildJobModel, exists: bool) -> Outcome<ConversionModel> {
    if exists && !job.source.options.force && job.source.options.pkgbuild != PkgbuildMode::Only {
        Err(
            "The output package already exists: "@ + lossy_text(job.package)
                + ". Use --force to replace it."@,
        )
    } else {
        Ok(ConversionModel::Describe(job))
    }
}

/// The step after the Debian package was hashed.
pub open spec fn after_hash(
    job: BuildJobModel,
    created: Seq<Seq<u8>>,
    directory: Seq<u8>,
    output: Seq<char>,
) -> Outcome<ConversionModel> {
    match source_digest(output) {
        Err(message) => Err(message),
        Ok(digest) => if valid_utf8(job.data_member) {
            Ok(
                ConversionModel::WritePkgbuild {
                    job,
                    created,
                    directory,
                    digest,
                    data_member: decode_utf8(job.data_member),
                },
            )
        } else {
            Err("The data archive member name is not valid UTF-8."@)
        },
    }
}

/// The step after the PKGBUILD was written.
pub open spec fn after_pkgbuild(
    job: BuildJobModel,
    created: Seq<Seq<u8>>,
    path: Seq<u8>,
) -> ConversionModel {
    ConversionModel::Finished {
        warnings: with_all_unique(seq![], job.warnings),
        created: created.push(path),
    }
}

/// The step after another.
pub open spec fn next_conversion_step(step: ConversionModel, reply: ConversionReply) -> Outcome<
    ConversionModel,
> {
    match step {
        ConversionModel::Resolve(options) => after_resolve(
            options,
            reply->input@,
            optional_bytes(reply->parent),
            reply->is_file,
        ),
        ConversionModel::ReadControl(source) => after_control(
            source,
            reply->text@,
            reply->data_member@,
        ),
        ConversionModel::LoadCatalog(job) => after_catalog(
            job,
            reply->available,
            reply->installed,
        ),
        ConversionModel::ExtractPayload(job) => after_extraction(job, reply->Reserved_0),
        ConversionModel::NormalizePayload(job) => Ok(after_change(job, reply->Transformed_0)),
        ConversionModel::InspectPayload { job, .. } => Ok(
            after_inspection(job, reply->Inspected_0),
        ),
        ConversionModel::GenerateScript(job) => after_script(
            job,
            reply->install.deep_view(),
            reply->warnings.deep_view(),
        ),
        ConversionModel::ReadClock { job, install } => after_time(job, install, reply->Time_0),
        ConversionModel::Probe(job) => after_probe(job, reply->Exists_0),
        ConversionModel::Describe(job) => index_step(job),
        ConversionModel::Index { job, .. } => pack_step(job),
        ConversionModel::Pack { job, .. } => Ok(pkgbuild_step(job, seq![job.package])),
        ConversionModel::HashInput { job, created, directory } => after_hash(
            job,
            created,
            directory,
            reply->Text_0@,
        ),
        ConversionModel::WritePkgbuild { job, created, .. } => Ok(
            after_pkgbuild(job, created, reply->Written_0@),
        ),
        ConversionModel::Finished { .. } => Ok(step),
    }
}

// ---------------------------------------------------------------------------
// Code
// ---------------------------------------------------------------------------
/// Start the conversion of a Debian package.
pub fn convert(options: ConvertOptions) -> (result: Conversion)
    ensures
        result.deep_view() == ConversionModel::Resolve(options.deep_view()),
{
    Conversion::Resolve(options)
}

/// Choose the directory that the output goes to.
pub fn output_directory(parent: Option<Vec<u8>>, configured: &Option<Vec<u8>>) -> (result: Result<
    Vec<u8>,
>)
    ensures
        match result {
            Ok(directory) => output_place(optional_bytes(parent), optional_bytes(*configured))
                == Ok::<Seq<u8>, Seq<char>>(directory@),
            Err(error) => output_place(optional_bytes(parent), optional_bytes(*configured)) == Err::<
                Seq<u8>,
                Seq<char>,
            >(error@),
        },
{
    match configured {
        Some(directory) => Ok(copy(directory.as_slice())),
        None => match parent {
            Some(directory) => Ok(directory),
            None => Err(failure("The Debian package has no parent directory.")),
        },
    }
}

fn apply_pseudo_mode(pseudo: bool, debian: &mut DebianMetadata) -> (warnings: Vec<String>)
    ensures
        final(debian).deep_view() == pseudo_metadata(pseudo, old(debian).deep_view()),
        warnings.deep_view() == pseudo_warnings(pseudo, old(debian).deep_view()),
{
    let mut warnings: Vec<String> = Vec::new();
    if !pseudo {
        assert(warnings.deep_view() =~= seq![]);
        return warnings;
    }
    let ghost expected = pseudo_warnings(pseudo, debian.deep_view());
    if equal(debian.architecture.as_str(), "i686") {
        debian.architecture = String::from_str("x86_64");
        warnings.push(
            String::from_str(
                "Pseudo mode changed the output architecture from i686 to x86_64. Payload binaries remain 32-bit.",
            ),
        );
    } else {
        warnings.push(
            String::from_str("Pseudo mode has no effect on Debian architecture '").concat(
                debian.debian_architecture.as_str(),
            ).concat("'."),
        );
    }
    assert(warnings.deep_view() =~= expected);
    warnings
}

/// Find the Arch architecture that the payload of a package is built for: it is
/// that of the Debian package, whatever the pseudo mode made of it.
pub fn payload_architecture(debian: &DebianMetadata) -> (result: String)
    ensures
        result@ == payload_architecture_of(debian.deep_view()),
{
    match map_architecture(debian.debian_architecture.as_str()) {
        Ok(architecture) => String::from_str(architecture),
        Err(_) => String::from_str(debian.architecture.as_str()),
    }
}

#[verifier::spinoff_prover]
fn control_read(source: Source, text: &str, data_member: Vec<u8>) -> (result: Result<Conversion>)
    ensures
        outcome(result) == after_control(source.deep_view(), text@, data_member@),
{
    let control = DebianControl::parse(text)?;
    let mut debian = DebianMetadata::from_control(&control)?;
    let warnings = apply_pseudo_mode(source.options.pseudo_64, &mut debian);
    Ok(Conversion::LoadCatalog(DebianJob { source, data_member, debian, warnings }))
}

#[verifier::spinoff_prover]
fn catalog_loaded(job: DebianJob, available: &PacmanReply, installed: &PacmanReply) -> (result:
    Result<Conversion>)
    ensures
        outcome(result) == after_catalog(job.deep_view(), *available, *installed),
{
    let catalog = PackageCatalog::load(available, installed)?;
    let resolver = DependencyResolver::new(&catalog, "").with_target_architecture(
        job.debian.debian_architecture.as_str(),
    );
    let relations = resolve_relations(&job.debian, &resolver)?;
    let mut job = job;
    push_copies(&mut job.warnings, &relations.warnings);
    Ok(Conversion::ExtractPayload(PayloadJob { job, relations }))
}

/// Refuse a payload with a path that an Arch package reserves.
pub fn reject_reserved_payload_files(paths: ReservedPaths) -> (result: Result<()>)
    ensures
        outcome(result) == match reserved_path(paths) {
            Some(name) => Err::<(), Seq<char>>(
                "The Debian payload contains reserved Arch metadata path '"@ + name + "'."@,
            ),
            None => Ok(()),
        },
{
    let name = if paths.pkginfo {
        ".PKGINFO"
    } else if paths.buildinfo {
        ".BUILDINFO"
    } else if paths.mtree {
        ".MTREE"
    } else if paths.install {
        ".INSTALL"
    } else {
        return Ok(());
    };
    Err(
        AppError::new(
            String::from_str("The Debian payload contains reserved Arch metadata path '").concat(
                name,
            ).concat("'."),
        ),
    )
}

fn with_warnings(job: PayloadJob, warnings: &Vec<String>) -> (result: PayloadJob)
    ensures
        result.deep_view() == warned(job.deep_view(), warnings.deep_view()),
{
    let mut debian_job = job.job;
    push_copies(&mut debian_job.warnings, warnings);
    PayloadJob { job: debian_job, relations: job.relations }
}

#[verifier::spinoff_prover]
fn time_known(job: ContentJob, install: Option<String>, builddate: u64) -> (result: Result<
    Conversion,
>)
    ensures
        outcome(result) == after_time(job.deep_view(), install.deep_view(), builddate),
{
    let debian_job = job.payload.job;
    let metadata = package_metadata(
        &debian_job.debian,
        job.payload.relations,
        job.installed_size,
        job.backups,
        debian_job.source.options.packager.as_str(),
        builddate,
    )?;
    let name = metadata.output_file_name();
    let package = join_path(
        debian_job.source.output_dir.as_slice(),
        name.as_str().as_bytes(),
    );
    Ok(
        Conversion::Probe(
            BuildJob {
                source: debian_job.source,
                data_member: debian_job.data_member,
                warnings: debian_job.warnings,
                metadata,
                install,
                package,
            },
        ),
    )
}

/// Remove what a list of warnings repeats.
pub fn unique_warnings(warnings: &Vec<String>) -> (result: Vec<String>)
    ensures
        result.deep_view() == with_all_unique(seq![], warnings.deep_view()),
{
    let mut unique: Vec<String> = Vec::new();
    assert(unique.deep_view() =~= seq![]);
    push_all_unique(&mut unique, warnings);
    unique
}

#[verifier::spinoff_prover]
fn packages_written(job: BuildJob, created: Vec<Vec<u8>>) -> (result: Conversion)
    ensures
        result.deep_view() == pkgbuild_step(job.deep_view(), byte_lists(created@)),
{
    if job.source.options.pkgbuild == PkgbuildMode::Skip {
        Conversion::Finished { warnings: unique_warnings(&job.warnings), created }
    } else {
        let name = job.metadata.pkgname.clone().concat("-PKGBUILD");
        let directory = join_path(job.source.output_dir.as_slice(), name.as_str().as_bytes());
        Conversion::HashInput { job, created, directory }
    }
}

#[verifier::spinoff_prover]
fn index_written(job: BuildJob) -> (result: Result<Conversion>)
    ensures
        outcome(result) == pack_step(job.deep_view()),
{
    if job.source.options.pkgbuild == PkgbuildMode::Only {
        let created: Vec<Vec<u8>> = Vec::new();
        assert(byte_lists(created@) =~= seq![]);
        return Ok(packages_written(job, created));
    }
    let epoch = epoch_to_i64(job.source.options.source_date_epoch)?;
    let options = PackageOptions {
        zstd_level: job.source.options.compression_level as i32,
        source_date_epoch: epoch,
        overwrite: job.source.options.force,
        validate_with_pacman: true,
    };
    Ok(Conversion::Pack { job, options })
}

#[verifier::spinoff_prover]
fn metadata_written(job: BuildJob) -> (result: Result<Conversion>)
    ensures
        outcome(result) == index_step(job.deep_view()),
{
    if job.source.options.generate_mtree && job.source.options.pkgbuild != PkgbuildMode::Only {
        let epoch = epoch_to_i64(job.source.options.source_date_epoch)?;
        return Ok(Conversion::Index { job, epoch });
    }
    index_written(job)
}

fn read_digest(output: &str) -> (result: Result<String>)
    ensures
        outcome(result) == source_digest(output@),
{
    let characters = chars(output);
    let parts = split_words(characters.as_slice());
    let ghost all = texts(parts@);
    assert(all.len() == parts@.len());
    if parts.len() == 0 {
        return Err(failure("sha256sum returned an invalid digest."));
    }
    assert(all[0] == parts@[0]@);
    if !sha256_text(parts[0]) {
        return Err(failure("sha256sum returned an invalid digest."));
    }
    Ok(string(parts[0]))
}

fn path_resolved(
    options: ConvertOptions,
    input: Vec<u8>,
    parent: Option<Vec<u8>>,
    is_file: bool,
) -> (result: Result<Conversion>)
    ensures
        outcome(result) == after_resolve(
            options.deep_view(),
            input@,
            optional_bytes(parent),
            is_file,
        ),
{
    if !is_file {
        return Err(
            AppError::new(
                String::from_str("The input is not a regular file: ").concat(
                    display(input.as_slice()).as_str(),
                ),
            ),
        );
    }
    let output_dir = output_directory(parent, &options.output_dir)?;
    Ok(Conversion::ReadControl(Source { options, input, output_dir }))
}

fn payload_extracted(job: PayloadJob, paths: ReservedPaths) -> (result: Result<Conversion>)
    ensures
        outcome(result) == after_extraction(job.deep_view(), paths),
{
    reject_reserved_payload_files(paths)?;
    Ok(Conversion::NormalizePayload(job))
}

#[verifier::spinoff_prover]
fn payload_changed(job: PayloadJob, report: TransformReport) -> (result: Conversion)
    ensures
        result.deep_view() == after_change(job.deep_view(), report),
{
    let architecture = payload_architecture(&job.job.debian);
    let payload = with_warnings(job, &report.warnings);
    Conversion::InspectPayload {
        job: ContentJob {
            payload,
            installed_size: report.installed_size,
            backups: report.backup_paths,
        },
        architecture,
    }
}

#[verifier::spinoff_prover]
fn payload_inspected(job: ContentJob, report: &CompatibilityReport) -> (result: Conversion)
    ensures
        result.deep_view() == after_inspection(job.deep_view(), *report),
{
    let warnings = report.warnings();
    Conversion::GenerateScript(
        ContentJob {
            payload: with_warnings(job.payload, &warnings),
            installed_size: job.installed_size,
            backups: job.backups,
        },
    )
}

#[verifier::spinoff_prover]
fn script_made(job: ContentJob, install: Option<String>, warnings: &Vec<String>) -> (result: Result<
    Conversion,
>)
    ensures
        outcome(result) == after_script(
            job.deep_view(),
            install.deep_view(),
            warnings.deep_view(),
        ),
{
    let next = ContentJob {
        payload: with_warnings(job.payload, warnings),
        installed_size: job.installed_size,
        backups: job.backups,
    };
    match next.payload.job.source.options.source_date_epoch {
        Some(seconds) => time_known(next, install, seconds),
        None => Ok(Conversion::ReadClock { job: next, install }),
    }
}

#[verifier::spinoff_prover]
fn package_probed(job: BuildJob, exists: bool) -> (result: Result<Conversion>)
    ensures
        outcome(result) == after_probe(job.deep_view(), exists),
{
    if exists && !job.source.options.force && job.source.options.pkgbuild != PkgbuildMode::Only {
        return Err(
            AppError::new(
                String::from_str("The output package already exists: ").concat(
                    display(job.package.as_slice()).as_str(),
                ).concat(". Use --force to replace it."),
            ),
        );
    }
    Ok(Conversion::Describe(job))
}

#[verifier::spinoff_prover]
fn package_written(job: BuildJob) -> (result: Conversion)
    ensures
        result.deep_view() == pkgbuild_step(job.deep_view(), seq![job.deep_view().package]),
{
    let mut created: Vec<Vec<u8>> = Vec::new();
    created.push(copy(job.package.as_slice()));
    assert(byte_lists(created@) =~= seq![job.package@]);
    packages_written(job, created)
}

#[verifier::spinoff_prover]
fn input_hashed(
    job: BuildJob,
    created: Vec<Vec<u8>>,
    directory: Vec<u8>,
    output: &str,
) -> (result: Result<Conversion>)
    ensures
        outcome(result) == after_hash(
            job.deep_view(),
            byte_lists(created@),
            directory@,
            output@,
        ),
{
    let digest = read_digest(output)?;
    match decode(job.data_member.as_slice()) {
        Err(_) => Err(failure("The data archive member name is not valid UTF-8.")),
        Ok(data_member) => {
            proof {
                lemma_decoded(data_member@, job.data_member@);
            }
            Ok(Conversion::WritePkgbuild { job, created, directory, digest, data_member })
        },
    }
}

#[verifier::spinoff_prover]
fn pkgbuild_written(job: BuildJob, created: Vec<Vec<u8>>, path: Vec<u8>) -> (result: Conversion)
    ensures
        result.deep_view() == after_pkgbuild(job.deep_view(), byte_lists(created@), path@),
{
    let mut created = created;
    let ghost before = byte_lists(created@);
    let ghost last = path@;
    created.push(path);
    assert(byte_lists(created@) =~= before.push(last));
    Conversion::Finished { warnings: unique_warnings(&job.warnings), created }
}

/// The step works on the Debian package and not yet on the Arch package.
pub open spec fn is_input_step(step: ConversionModel) -> bool {
    match step {
        ConversionModel::Resolve(_) => true,
        ConversionModel::ReadControl(_) => true,
        ConversionModel::LoadCatalog(_) => true,
        ConversionModel::ExtractPayload(_) => true,
        ConversionModel::NormalizePayload(_) => true,
        ConversionModel::InspectPayload { .. } => true,
        _ => false,
    }
}

impl Conversion {
    #[verifier::spinoff_prover]
    fn is_input(&self) -> (result: bool)
        ensures
            result == is_input_step(self.deep_view()),
    {
        match self {
            Conversion::Resolve(_) => true,
            Conversion::ReadControl(_) => true,
            Conversion::LoadCatalog(_) => true,
            Conversion::ExtractPayload(_) => true,
            Conversion::NormalizePayload(_) => true,
            Conversion::InspectPayload { .. } => true,
            _ => false,
        }
    }

    #[verifier::spinoff_prover]
    fn advance_input(self, reply: ConversionReply) -> (result: Result<Conversion>)
        requires
            is_input_step(self.deep_view()),
            conversion_answers(self.deep_view(), reply),
        ensures
            outcome(result) == next_conversion_step(self.deep_view(), reply),
    {
        match (self, reply) {
            (
                Conversion::Resolve(options),
                ConversionReply::Resolved { input, parent, is_file },
            ) => path_resolved(options, input, parent, is_file),
            (Conversion::ReadControl(source), ConversionReply::Control { text, data_member }) =>
                control_read(source, text.as_str(), data_member),
            (Conversion::LoadCatalog(job), ConversionReply::Catalog { available, installed }) =>
                catalog_loaded(job, &available, &installed),
            (Conversion::ExtractPayload(job), ConversionReply::Reserved(paths)) =>
                payload_extracted(job, paths),
            (Conversion::NormalizePayload(job), ConversionReply::Transformed(report)) => Ok(
                payload_changed(job, report),
            ),
            (Conversion::InspectPayload { job, .. }, ConversionReply::Inspected(report)) => Ok(
                payload_inspected(job, &report),
            ),
            (step, _) => Ok(step),
        }
    }

    #[verifier::spinoff_prover]
    fn advance_output(self, reply: ConversionReply) -> (result: Result<Conversion>)
        requires
            !is_input_step(self.deep_view()),
            conversion_answers(self.deep_view(), reply),
        ensures
            outcome(result) == next_conversion_step(self.deep_view(), reply),
    {
        match (self, reply) {
            (Conversion::GenerateScript(job), ConversionReply::Script { install, warnings }) =>
                script_made(job, install, &warnings),
            (Conversion::ReadClock { job, install }, ConversionReply::Time(seconds)) =>
                time_known(job, install, seconds),
            (Conversion::Probe(job), ConversionReply::Exists(exists)) => package_probed(
                job,
                exists,
            ),
            (Conversion::Describe(job), ConversionReply::Done) => metadata_written(job),
            (Conversion::Index { job, .. }, ConversionReply::Done) => index_written(job),
            (Conversion::Pack { job, .. }, ConversionReply::Done) => Ok(package_written(job)),
            (
                Conversion::HashInput { job, created, directory },
                ConversionReply::Text(output),
            ) => input_hashed(job, created, directory, output.as_str()),
            (Conversion::WritePkgbuild { job, created, .. }, ConversionReply::Written(path)) => Ok(
                pkgbuild_written(job, created, path),
            ),
            (step, _) => Ok(step),
        }
    }

    /// Go on after the step was made.
    pub fn advance(self, reply: ConversionReply) -> (result: Result<Conversion>)
        requires
            conversion_answers(self.deep_view(), reply),
        ensures
            outcome(result) == next_conversion_step(self.deep_view(), reply),
    {
        if self.is_input() {
            self.advance_input(reply)
        } else {
            self.advance_output(reply)
        }
    }
}

} // verus!
