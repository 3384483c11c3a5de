//! What each step of a conversion hands on.

use vstd::prelude::*;
use vstd::utf8::encode_utf8;

use crate::archive::package::PackageOptions;
use crate::bytes::optional_bytes;
use crate::cli::{ConvertModel, PkgbuildMode};
use crate::compatibility::report::report_warnings;
use crate::control::metadata::MetadataModel;
use crate::conversion::job::{
    BuildJobModel, ContentJobModel, DebianJobModel, PayloadJobModel, SourceModel,
};
use crate::conversion::laws::conversion_run;
use crate::conversion::package::packages_keep_their_sources;
use crate::conversion::relations::arch_relations;
use crate::conversion::steps::{
    accepted_metadata, conversion_answers, next_conversion_step, ConversionModel, ConversionReply,
};
use crate::dependency::catalog::loaded_catalog;
use crate::dependency::resolver::ResolverModel;
use crate::digest::is_sha256;
use crate::lists::{unique_additions_stay_unique, with_all_unique};
use crate::paths::joined_path;
use crate::pieces::words;

verus! {

// ---------------------------------------------------------------------------
// Input
// ---------------------------------------------------------------------------
/// The metadata of a job is that of the control file; only the pseudo mode
/// changes the architecture of a 32-bit package, and nothing else of it.
pub open spec fn is_metadata_of(job: DebianJobModel, debian: MetadataModel) -> bool {
    &&& job.debian.name == debian.name
    &&& job.debian.source == debian.source
    &&& job.debian.debian_version == debian.debian_version
    &&& job.debian.full_version == debian.full_version
    &&& job.debian.description == debian.description
    &&& job.debian.long_description == debian.long_description
    &&& job.debian.url == debian.url
    &&& job.debian.debian_architecture == debian.debian_architecture
    &&& job.debian.installed_size == debian.installed_size
    &&& job.debian.license == debian.license
    &&& job.debian.maintainer == debian.maintainer
    &&& job.debian.relations == debian.relations
    &&& job.debian.architecture == if job.source.options.pseudo_64 && debian.architecture
        == "i686"@ {
        "x86_64"@
    } else {
        debian.architecture
    }
}

/// The path of the Debian package and the place of the output stay what was
/// found: the output goes to the directory that was asked for, or else beside
/// the Debian package.
pub proof fn sources_are_handed_on(options: ConvertModel, reply: ConversionReply)
    requires
        conversion_answers(ConversionModel::Resolve(options), reply),
    ensures
        ({
            let next = next_conversion_step(ConversionModel::Resolve(options), reply);
            let parent = optional_bytes(reply->parent);
            &&& next is Ok <==> reply->is_file && (options.output_dir is Some || parent is Some)
            &&& next matches Ok(step) ==> step matches ConversionModel::ReadControl(source) && {
                &&& source.options == options
                &&& source.input == reply->input@
                &&& options.output_dir is Some ==> Some(source.output_dir) == options.output_dir
                &&& options.output_dir is None ==> Some(source.output_dir) == parent
            }
        }),
{
}

/// The metadata is that of the control file, and the name of the data archive is
/// kept.
pub proof fn control_files_are_handed_on(source: SourceModel, reply: ConversionReply)
    requires
        conversion_answers(ConversionModel::ReadControl(source), reply),
    ensures
        ({
            let next = next_conversion_step(ConversionModel::ReadControl(source), reply);
            &&& next is Ok <==> accepted_metadata(reply->text@) is Ok
            &&& next matches Ok(step) ==> step matches ConversionModel::LoadCatalog(job) && {
                &&& job.source == source
                &&& job.data_member == reply->data_member@
                &&& is_metadata_of(job, accepted_metadata(reply->text@)->Ok_0)
                &&& source.options.pseudo_64 <==> job.warnings.len() == 1
                &&& job.warnings.len() <= 1
            }
        }),
{
}

/// The relations are those of the metadata, for the architecture of the package
/// and for the packages that pacman can install and has installed.
pub proof fn relations_are_handed_on(job: DebianJobModel, reply: ConversionReply)
    requires
        conversion_answers(ConversionModel::LoadCatalog(job), reply),
    ensures
        ({
            let next = next_conversion_step(ConversionModel::LoadCatalog(job), reply);
            let catalog = loaded_catalog(reply->available, reply->installed);
            let resolver = ResolverModel {
                catalog,
                target: job.debian.debian_architecture,
                profiles: Set::empty(),
                mappings: Map::empty(),
            };
            match arch_relations(job.debian, resolver) {
                Err(message) => next == Err::<ConversionModel, Seq<char>>(message),
                Ok(relations) => next matches Ok(step) && (step matches
                    ConversionModel::ExtractPayload(after) && {
                    &&& after.relations == relations
                    &&& after.job.source == job.source
                    &&& after.job.data_member == job.data_member
                    &&& after.job.debian == job.debian
                    &&& after.job.warnings == job.warnings + relations.warnings
                }),
            }
        }),
{
}

/// A payload is taken as it is, unless it holds a file that describes an Arch
/// package.
pub proof fn payloads_are_handed_on(job: PayloadJobModel, reply: ConversionReply)
    requires
        conversion_answers(ConversionModel::ExtractPayload(job), reply),
    ensures
        ({
            let next = next_conversion_step(ConversionModel::ExtractPayload(job), reply);
            let found = reply->Reserved_0;
            &&& next is Err <==> found.pkginfo || found.buildinfo || found.mtree || found.install
            &&& next matches Ok(step) ==> step == ConversionModel::NormalizePayload(job)
        }),
{
}

/// The size and the configuration files of the changed payload, and its
/// warnings, are handed on, and so are the warnings of the inspection.
pub proof fn contents_are_handed_on(
    job: PayloadJobModel,
    reply: ConversionReply,
    content: ContentJobModel,
    architecture: Seq<char>,
    answer: ConversionReply,
)
    requires
        conversion_answers(ConversionModel::NormalizePayload(job), reply),
        conversion_answers((ConversionModel::InspectPayload { job: content, architecture }), answer),
    ensures
        next_conversion_step(ConversionModel::NormalizePayload(job), reply) matches Ok(step) && (
        step matches ConversionModel::InspectPayload { job: after, .. } && {
            let report = reply->Transformed_0;
            &&& after.installed_size == report.installed_size
            &&& after.backups == report.backup_paths.deep_view()
            &&& after.payload.relations == job.relations
            &&& after.payload.job.source == job.job.source
            &&& after.payload.job.data_member == job.job.data_member
            &&& after.payload.job.debian == job.job.debian
            &&& after.payload.job.warnings == job.job.warnings + report.warnings.deep_view()
        }),
        next_conversion_step(
            (ConversionModel::InspectPayload { job: content, architecture }),
            answer,
        ) matches Ok(step) && (step matches ConversionModel::GenerateScript(after) && {
            &&& after.installed_size == content.installed_size
            &&& after.backups == content.backups
            &&& after.payload.relations == content.payload.relations
            &&& after.payload.job.source == content.payload.job.source
            &&& after.payload.job.data_member == content.payload.job.data_member
            &&& after.payload.job.debian == content.payload.job.debian
            &&& after.payload.job.warnings == content.payload.job.warnings + report_warnings(
                answer->Inspected_0.deep_view(),
            )
        }),
{
}

// ---------------------------------------------------------------------------
// Output
// ---------------------------------------------------------------------------
/// The package of a job is made of what the job for its contents knows, with the
/// time of its build, and it goes to a file of its name in the output directory.
pub open spec fn is_build_of(
    built: BuildJobModel,
    job: ContentJobModel,
    install: Option<Seq<char>>,
    warnings: Seq<Seq<char>>,
    builddate: u64,
) -> bool {
    let debian_job = job.payload.job;
    let metadata = built.metadata;
    &&& built.source == debian_job.source
    &&& built.data_member == debian_job.data_member
    &&& built.warnings == warnings
    &&& built.install == install
    &&& metadata.builddate == builddate
    &&& metadata.packager == debian_job.source.options.packager
    &&& metadata.installed_size == job.installed_size
    &&& metadata.backups == job.backups
    &&& metadata.pkgname == debian_job.debian.name
    &&& metadata.full_version == debian_job.debian.full_version
    &&& metadata.architecture == debian_job.debian.architecture
    &&& metadata.depends == job.payload.relations.required
    &&& metadata.optional_depends == job.payload.relations.optional
    &&& metadata.provides == job.payload.relations.provides
    &&& metadata.conflicts == job.payload.relations.conflicts
    &&& metadata.replaces == job.payload.relations.replaces
    &&& built.package == joined_path(
        debian_job.source.output_dir,
        encode_utf8(
            metadata.pkgname + "-"@ + metadata.version + "-"@ + metadata.release + "-"@
                + metadata.architecture + ".pkg.tar.zst"@,
        ),
    )
}

/// The install script and its warnings are handed on; the build carries the time
/// that was asked for, or else that of the clock.
pub proof fn scripts_and_times_are_handed_on(
    job: ContentJobModel,
    reply: ConversionReply,
    install: Option<Seq<char>>,
    answer: ConversionReply,
)
    requires
        conversion_answers(ConversionModel::GenerateScript(job), reply),
        conversion_answers((ConversionModel::ReadClock { job, install }), answer),
    ensures
        ({
            let next = next_conversion_step(ConversionModel::GenerateScript(job), reply);
            let warnings = job.payload.job.warnings + reply->warnings.deep_view();
            match job.payload.job.source.options.source_date_epoch {
                Some(seconds) => next matches Ok(step) ==> step matches ConversionModel::Probe(
                    built,
                ) && is_build_of(built, job, reply->install.deep_view(), warnings, seconds),
                None => next matches Ok(step) && (step matches ConversionModel::ReadClock {
                    job: after,
                    install: kept,
                } && {
                    &&& kept == reply->install.deep_view()
                    &&& after.installed_size == job.installed_size
                    &&& after.backups == job.backups
                    &&& after.payload.relations == job.payload.relations
                    &&& after.payload.job.source == job.payload.job.source
                    &&& after.payload.job.data_member == job.payload.job.data_member
                    &&& after.payload.job.debian == job.payload.job.debian
                    &&& after.payload.job.warnings == warnings
                }),
            }
        }),
        next_conversion_step((ConversionModel::ReadClock { job, install }), answer) matches Ok(step)
            ==> step matches ConversionModel::Probe(built) && is_build_of(
            built,
            job,
            install,
            job.payload.job.warnings,
            answer->Time_0,
        ),
{
    let debian_job = job.payload.job;
    packages_keep_their_sources(
        debian_job.debian,
        job.payload.relations,
        job.installed_size,
        job.backups,
        debian_job.source.options.packager,
        answer->Time_0,
    );
    if let Some(seconds) = debian_job.source.options.source_date_epoch {
        packages_keep_their_sources(
            debian_job.debian,
            job.payload.relations,
            job.installed_size,
            job.backups,
            debian_job.source.options.packager,
            seconds,
        );
    }
}

/// A job reaches the steps that write files unchanged: the index exactly if one
/// is asked for and a package is written, then the package, then the PKGBUILD.
pub proof fn builds_go_through_their_steps(job: BuildJobModel, reply: ConversionReply)
    requires
        reply is Done,
    ensures
        ({
            let options = job.source.options;
            let only = options.pkgbuild == PkgbuildMode::Only;
            let described = next_conversion_step(ConversionModel::Describe(job), reply);
            &&& options.generate_mtree && !only ==> (described matches Ok(step) ==> step matches
                ConversionModel::Index { job: kept, epoch } && kept == job && is_same_time(
                epoch,
                options.source_date_epoch,
            ))
            &&& !options.generate_mtree && !only ==> (described matches Ok(step) ==> is_packing(
                step,
                job,
            ))
            &&& only ==> (described matches Ok(step) && is_hashing(step, job, seq![]))
            &&& forall|epoch: Option<i64>|
                !only ==> (#[trigger] next_conversion_step(
                    ConversionModel::Index { job, epoch },
                    reply,
                ) matches Ok(step) ==> is_packing(step, job))
            &&& described is Err ==> (options.source_date_epoch matches Some(seconds) && seconds
                > 0x7fff_ffff_ffff_ffff)
        }),
{
}

/// The time is the one that was asked for, if any was.
pub open spec fn is_same_time(epoch: Option<i64>, asked: Option<u64>) -> bool {
    match asked {
        Some(seconds) => epoch matches Some(time) && time == seconds,
        None => epoch is None,
    }
}

/// The step writes the package of a job as the options ask for.
pub open spec fn is_packing(step: ConversionModel, job: BuildJobModel) -> bool {
    step matches ConversionModel::Pack { job: kept, options } && {
        &&& kept == job
        &&& options.zstd_level == job.source.options.compression_level
        &&& is_same_time(options.source_date_epoch, job.source.options.source_date_epoch)
        &&& options.overwrite == job.source.options.force
        &&& options.validate_with_pacman
    }
}

/// The step hashes the Debian package of a job for a PKGBUILD beside the output.
pub open spec fn is_hashing(step: ConversionModel, job: BuildJobModel, made: Seq<Seq<u8>>) -> bool {
    step matches ConversionModel::HashInput { job: kept, created, directory } && {
        &&& kept == job
        &&& created == made
        &&& directory == joined_path(
            job.source.output_dir,
            encode_utf8(job.metadata.pkgname + "-PKGBUILD"@),
        )
    }
}

/// What was made is told: the package that was packed, and the PKGBUILD that was
/// written, with the digest of the Debian package in it.
pub proof fn what_was_made_is_told(
    job: BuildJobModel,
    options: PackageOptions,
    done: ConversionReply,
    created: Seq<Seq<u8>>,
    directory: Seq<u8>,
    text: ConversionReply,
    digest: Seq<char>,
    data_member: Seq<char>,
    written: ConversionReply,
)
    requires
        done is Done,
        text is Text,
        written is Written,
    ensures
        next_conversion_step((ConversionModel::Pack { job, options }), done) matches Ok(step) && if job.source.options.pkgbuild
            == PkgbuildMode::Skip {
            step matches ConversionModel::Finished { created: made, .. } && made == seq![
                job.package,
            ]
        } else {
            is_hashing(step, job, seq![job.package])
        },
        ({
            let next = next_conversion_step(
                (ConversionModel::HashInput { job, created, directory }),
                text,
            );
            let parts = words(text->Text_0@);
            &&& next is Ok <==> parts.len() > 0 && is_sha256(parts[0]) && vstd::utf8::valid_utf8(
                job.data_member,
            )
            &&& next matches Ok(step) ==> step matches ConversionModel::WritePkgbuild {
                job: kept,
                created: made,
                directory: place,
                digest: found,
                data_member: member,
            } && {
                &&& kept == job
                &&& made == created
                &&& place == directory
                &&& found == parts[0]
                &&& encode_utf8(member) == job.data_member
            }
        }),
        next_conversion_step(
            (ConversionModel::WritePkgbuild { job, created, directory, digest, data_member }),
            written,
        ) matches Ok(step) && (step matches ConversionModel::Finished { created: made, .. } && made
            == created.push(written->Written_0@)),
{
    if vstd::utf8::valid_utf8(job.data_member) {
        vstd::utf8::decode_utf8_encode_utf8(job.data_member);
    }
}

// ---------------------------------------------------------------------------
// Warnings
// ---------------------------------------------------------------------------
/// The warnings that a step knows of.
pub open spec fn known_warnings(step: ConversionModel) -> Seq<Seq<char>> {
    match step {
        ConversionModel::Resolve(_) => seq![],
        ConversionModel::ReadControl(_) => seq![],
        ConversionModel::LoadCatalog(job) => job.warnings,
        ConversionModel::ExtractPayload(job) => job.job.warnings,
        ConversionModel::NormalizePayload(job) => job.job.warnings,
        ConversionModel::InspectPayload { job, .. } => job.payload.job.warnings,
        ConversionModel::GenerateScript(job) => job.payload.job.warnings,
        ConversionModel::ReadClock { job, .. } => job.payload.job.warnings,
        ConversionModel::Probe(job) => job.warnings,
        ConversionModel::Describe(job) => job.warnings,
        ConversionModel::Index { job, .. } => job.warnings,
        ConversionModel::Pack { job, .. } => job.warnings,
        ConversionModel::HashInput { job, .. } => job.warnings,
        ConversionModel::WritePkgbuild { job, .. } => job.warnings,
        ConversionModel::Finished { warnings, .. } => warnings,
    }
}

/// The warnings that a reply to a step brings.
pub open spec fn brought_warnings(step: ConversionModel, reply: ConversionReply) -> Seq<Seq<char>> {
    match reply {
        ConversionReply::Transformed(report) => report.warnings.deep_view(),
        ConversionReply::Inspected(report) => report_warnings(report.deep_view()),
        ConversionReply::Script { warnings, .. } => warnings.deep_view(),
        ConversionReply::Catalog { available, installed } => match step {
            ConversionModel::LoadCatalog(job) => match arch_relations(
                job.debian,
                ResolverModel {
                    catalog: loaded_catalog(available, installed),
                    target: job.debian.debian_architecture,
                    profiles: Set::empty(),
                    mappings: Map::empty(),
                },
            ) {
                Ok(relations) => relations.warnings,
                Err(_) => seq![],
            },
            _ => seq![],
        },
        _ => seq![],
    }
}

proof fn lemma_in_either(first: Seq<Seq<char>>, second: Seq<Seq<char>>, text: Seq<char>)
    ensures
        (first + second).contains(text) <==> first.contains(text) || second.contains(text),
{
    let all = first + second;
    if first.contains(text) {
        let at = choose|at: int| 0 <= at < first.len() && first[at] == text;
        assert(all[at] == text);
    }
    if second.contains(text) {
        let at = choose|at: int| 0 <= at < second.len() && second[at] == text;
        assert(all[first.len() + at] == text);
    }
    if all.contains(text) {
        let at = choose|at: int| 0 <= at < all.len() && all[at] == text;
        if at < first.len() {
            assert(first[at] == text);
        } else {
            assert(second[at - first.len()] == text);
        }
    }
}

proof fn lemma_shown(warnings: Seq<Seq<char>>, text: Seq<char>)
    ensures
        with_all_unique(seq![], warnings).contains(text) <==> warnings.contains(text),
{
    let none = Seq::<Seq<char>>::empty();
    unique_additions_stay_unique(none, warnings);
    let shown = with_all_unique(none, warnings);
    assert(shown.to_set().contains(text) <==> none.to_set().union(warnings.to_set()).contains(text));
    assert(!none.contains(text));
}

/// A step keeps the warnings that are known, adds those that its reply brings,
/// and loses none of them at the end.
#[verifier::spinoff_prover]
pub proof fn steps_keep_their_warnings(
    step: ConversionModel,
    reply: ConversionReply,
    next: ConversionModel,
    text: Seq<char>,
)
    requires
        conversion_answers(step, reply),
        next_conversion_step(step, reply) == Ok::<ConversionModel, Seq<char>>(next),
    ensures
        known_warnings(step).contains(text) || brought_warnings(step, reply).contains(text)
            ==> known_warnings(next).contains(text),
{
    lemma_in_either(known_warnings(step), brought_warnings(step, reply), text);
    lemma_shown(known_warnings(step), text);
    match step {
        ConversionModel::Resolve(_) => {},
        ConversionModel::ReadControl(_) => {},
        ConversionModel::LoadCatalog(_) => {},
        ConversionModel::ExtractPayload(_) => {},
        ConversionModel::NormalizePayload(_) => {},
        ConversionModel::InspectPayload { .. } => {},
        ConversionModel::GenerateScript(_) => {},
        ConversionModel::ReadClock { .. } => {},
        ConversionModel::Probe(_) => {},
        ConversionModel::Describe(_) => {},
        ConversionModel::Index { .. } => {},
        ConversionModel::Pack { .. } => {},
        ConversionModel::HashInput { .. } => {},
        ConversionModel::WritePkgbuild { .. } => {},
        ConversionModel::Finished { .. } => {},
    }
}

/// Every warning that comes up on the way is known at the end of a conversion.
pub proof fn every_warning_reaches_the_end(
    start: ConversionModel,
    replies: Seq<ConversionReply>,
    index: int,
    text: Seq<char>,
)
    requires
        0 <= index < replies.len(),
        conversion_run(start, replies.take(index)) matches Ok(step) && conversion_answers(
            step,
            replies[index],
        ) && brought_warnings(step, replies[index]).contains(text),
    ensures
        conversion_run(start, replies) matches Ok(end) ==> known_warnings(end).contains(text),
    decreases replies.len(),
{
    let fewer = replies.drop_last();
    if let Ok(end) = conversion_run(start, replies) {
        let before = conversion_run(start, fewer)->Ok_0;
        if index < fewer.len() {
            assert(fewer.take(index) =~= replies.take(index));
            assert(fewer[index] == replies[index]);
            every_warning_reaches_the_end(start, fewer, index, text);
        } else {
            assert(fewer =~= replies.take(index));
        }
        if conversion_answers(before, replies.last()) {
            steps_keep_their_warnings(before, replies.last(), end, text);
        }
    }
}

} // verus!
