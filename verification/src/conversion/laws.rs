//! What holds of every conversion.

use vstd::prelude::*;

use crate::cli::{ConvertModel, PkgbuildMode};
use crate::control::metadata::MetadataModel;
use crate::conversion::job::BuildJobModel;
use crate::conversion::relations::RelationsModel;
use crate::conversion::steps::{
    accepted_metadata, conversion_answers, is_input_step, next_conversion_step,
    payload_architecture_of, pseudo_metadata, reserved_path, resolved_relations,
    ConversionModel, ConversionReply,
};
use crate::error::Outcome;
use crate::lists::{unique_additions_stay_unique, with_all_unique};

verus! {

/// The steps that a conversion goes through.
pub open spec fn conversion_run(step: ConversionModel, replies: Seq<ConversionReply>) -> Outcome<
    ConversionModel,
>
    decreases replies.len(),
{
    if replies.len() == 0 {
        Ok(step)
    } else {
        match conversion_run(step, replies.drop_last()) {
            Err(message) => Err(message),
            Ok(before) => if conversion_answers(before, replies.last()) {
                next_conversion_step(before, replies.last())
            } else {
                Ok(before)
            },
        }
    }
}

/// The step does what the options ask for: the options are kept, a package is
/// written only if it is asked for, it replaces another only if that is asked
/// for, and a PKGBUILD is written only if it is asked for.
pub open spec fn follows_options(step: ConversionModel, options: ConvertModel) -> bool {
    match step {
        ConversionModel::Resolve(kept) => kept == options,
        ConversionModel::ReadControl(source) => source.options == options,
        ConversionModel::LoadCatalog(job) => job.source.options == options,
        ConversionModel::ExtractPayload(job) => job.job.source.options == options,
        ConversionModel::NormalizePayload(job) => job.job.source.options == options,
        ConversionModel::InspectPayload { job, .. } => job.payload.job.source.options == options,
        ConversionModel::GenerateScript(job) => job.payload.job.source.options == options,
        ConversionModel::ReadClock { job, .. } => job.payload.job.source.options == options
            && options.source_date_epoch is None,
        ConversionModel::Probe(job) => job.source.options == options,
        ConversionModel::Describe(job) => job.source.options == options,
        ConversionModel::Index { job, .. } => job.source.options == options
            && options.generate_mtree && options.pkgbuild != PkgbuildMode::Only,
        ConversionModel::Pack { job, options: package_options } => job.source.options == options
            && options.pkgbuild != PkgbuildMode::Only && package_options.overwrite == options.force
            && package_options.validate_with_pacman,
        ConversionModel::HashInput { job, .. } => job.source.options == options && options.pkgbuild
            != PkgbuildMode::Skip,
        ConversionModel::WritePkgbuild { job, .. } => job.source.options == options
            && options.pkgbuild != PkgbuildMode::Skip,
        ConversionModel::Finished { .. } => true,
    }
}

#[verifier::spinoff_prover]
proof fn lemma_input_steps_keep_options(
    step: ConversionModel,
    reply: ConversionReply,
    options: ConvertModel,
)
    requires
        is_input_step(step),
        follows_options(step, options),
        conversion_answers(step, reply),
    ensures
        next_conversion_step(step, reply) matches Ok(next) ==> follows_options(next, options),
{
    match step {
        ConversionModel::Resolve(_) => {},
        ConversionModel::ReadControl(_) => {},
        ConversionModel::LoadCatalog(_) => {},
        ConversionModel::ExtractPayload(_) => {},
        ConversionModel::NormalizePayload(_) => {},
        ConversionModel::InspectPayload { .. } => {},
        _ => {},
    }
}

#[verifier::spinoff_prover]
proof fn lemma_probe_keeps_options(
    step: ConversionModel,
    reply: ConversionReply,
    options: ConvertModel,
)
    requires
        step is GenerateScript || step is ReadClock || step is Probe,
        follows_options(step, options),
        conversion_answers(step, reply),
    ensures
        next_conversion_step(step, reply) matches Ok(next) ==> follows_options(next, options),
{
    match step {
        ConversionModel::GenerateScript(_) => {},
        ConversionModel::ReadClock { .. } => {},
        ConversionModel::Probe(_) => {},
        _ => {},
    }
}

#[verifier::spinoff_prover]
proof fn lemma_packing_keeps_options(
    step: ConversionModel,
    reply: ConversionReply,
    options: ConvertModel,
)
    requires
        step is Describe || step is Index || step is Pack,
        follows_options(step, options),
        conversion_answers(step, reply),
    ensures
        next_conversion_step(step, reply) matches Ok(next) ==> follows_options(next, options),
{
    match step {
        ConversionModel::Describe(_) => {},
        ConversionModel::Index { .. } => {},
        ConversionModel::Pack { .. } => {},
        _ => {},
    }
}

#[verifier::spinoff_prover]
proof fn lemma_pkgbuild_keeps_options(
    step: ConversionModel,
    reply: ConversionReply,
    options: ConvertModel,
)
    requires
        step is HashInput || step is WritePkgbuild,
        follows_options(step, options),
        conversion_answers(step, reply),
    ensures
        next_conversion_step(step, reply) matches Ok(next) ==> follows_options(next, options),
{
    match step {
        ConversionModel::HashInput { .. } => {},
        ConversionModel::WritePkgbuild { .. } => {},
        _ => {},
    }
}

/// Every step of a conversion does what the options ask for.
#[verifier::spinoff_prover]
pub proof fn conversions_follow_their_options(options: ConvertModel, replies: Seq<ConversionReply>)
    ensures
        conversion_run(ConversionModel::Resolve(options), replies) matches Ok(step)
            ==> follows_options(step, options),
    decreases replies.len(),
{
    if replies.len() > 0 {
        conversions_follow_their_options(options, replies.drop_last());
        let before = conversion_run(ConversionModel::Resolve(options), replies.drop_last());
        if before is Ok && conversion_answers(before->Ok_0, replies.last()) {
            if is_input_step(before->Ok_0) {
                lemma_input_steps_keep_options(before->Ok_0, replies.last(), options);
            } else {
                match before->Ok_0 {
                    ConversionModel::GenerateScript(_) => {
                        lemma_probe_keeps_options(before->Ok_0, replies.last(), options);
                    },
                    ConversionModel::ReadClock { .. } => {
                        lemma_probe_keeps_options(before->Ok_0, replies.last(), options);
                    },
                    ConversionModel::Probe(_) => {
                        lemma_probe_keeps_options(before->Ok_0, replies.last(), options);
                    },
                    ConversionModel::HashInput { .. } => {
                        lemma_pkgbuild_keeps_options(before->Ok_0, replies.last(), options);
                    },
                    ConversionModel::WritePkgbuild { .. } => {
                        lemma_pkgbuild_keeps_options(before->Ok_0, replies.last(), options);
                    },
                    _ => {
                        lemma_packing_keeps_options(before->Ok_0, replies.last(), options);
                    },
                }
            }
        }
    }
}

/// A package that exists stops the conversion unless it may be replaced or no
/// package is to be written.
pub proof fn an_existing_output_stops_the_conversion(job: BuildJobModel)
    requires
        !job.source.options.force,
        job.source.options.pkgbuild != PkgbuildMode::Only,
    ensures
        next_conversion_step(ConversionModel::Probe(job), ConversionReply::Exists(true)) is Err,
{
}

/// The payload is extracted only after the metadata was accepted and the
/// relations were resolved, and it is changed only if it holds no reserved path.
#[verifier::spinoff_prover]
pub proof fn checks_come_before_the_payload(step: ConversionModel, reply: ConversionReply)
    requires
        conversion_answers(step, reply),
    ensures
        next_conversion_step(step, reply) matches Ok(ConversionModel::ExtractPayload(job)) ==> {
            &&& step matches ConversionModel::LoadCatalog(before)
            &&& resolved_relations(before.debian, reply->available, reply->installed) == Ok::<
                RelationsModel,
                Seq<char>,
            >(job.relations)
        },
        next_conversion_step(step, reply) matches Ok(ConversionModel::LoadCatalog(job)) ==> {
            &&& step is ReadControl
            &&& accepted_metadata(reply->text@) is Ok
        },
        next_conversion_step(step, reply) matches Ok(ConversionModel::NormalizePayload(job)) ==> {
            &&& step is ExtractPayload
            &&& reserved_path(reply->Reserved_0) is None
        },
{
    match step {
        ConversionModel::Resolve(_) => {},
        ConversionModel::ReadControl(_) => {},
        ConversionModel::LoadCatalog(_) => {},
        ConversionModel::ExtractPayload(_) => {},
        ConversionModel::NormalizePayload(_) => {},
        ConversionModel::InspectPayload { .. } => {},
        _ => {
            lemma_output_steps_stay_behind(step, reply);
        },
    }
}

#[verifier::spinoff_prover]
proof fn lemma_output_steps_stay_behind(step: ConversionModel, reply: ConversionReply)
    requires
        !is_input_step(step),
        conversion_answers(step, reply),
    ensures
        next_conversion_step(step, reply) matches Ok(next) ==> !is_input_step(next),
{
    match step {
        ConversionModel::GenerateScript(_) => {},
        ConversionModel::ReadClock { .. } => {},
        ConversionModel::Probe(_) => {},
        ConversionModel::Describe(_) => {},
        ConversionModel::Index { .. } => {},
        ConversionModel::Pack { .. } => {},
        ConversionModel::HashInput { .. } => {},
        ConversionModel::WritePkgbuild { .. } => {},
        ConversionModel::Finished { .. } => {},
        _ => {},
    }
}

/// The job of a step that works on the Arch package.
pub open spec fn job_of(step: ConversionModel) -> Option<BuildJobModel> {
    match step {
        ConversionModel::Probe(job) => Some(job),
        ConversionModel::Describe(job) => Some(job),
        ConversionModel::Index { job, .. } => Some(job),
        ConversionModel::Pack { job, .. } => Some(job),
        ConversionModel::HashInput { job, .. } => Some(job),
        ConversionModel::WritePkgbuild { job, .. } => Some(job),
        _ => None,
    }
}

#[verifier::spinoff_prover]
proof fn lemma_last_job(step: ConversionModel, reply: ConversionReply, warnings: Seq<Seq<char>>)
    requires
        !(step is Finished),
        conversion_answers(step, reply),
        next_conversion_step(step, reply) matches Ok(ConversionModel::Finished {
            warnings: shown,
            ..
        }) && shown == warnings,
    ensures
        job_of(step) matches Some(job) && warnings == with_all_unique(seq![], job.warnings),
{
    match step {
        ConversionModel::Resolve(_) => {},
        ConversionModel::ReadControl(_) => {},
        ConversionModel::LoadCatalog(_) => {},
        ConversionModel::ExtractPayload(_) => {},
        ConversionModel::NormalizePayload(_) => {},
        ConversionModel::InspectPayload { .. } => {},
        ConversionModel::GenerateScript(_) => {},
        ConversionModel::ReadClock { .. } => {},
        ConversionModel::Probe(_) => {},
        ConversionModel::Describe(_) => {},
        ConversionModel::Index { .. } => {},
        ConversionModel::Pack { .. } => {},
        ConversionModel::HashInput { .. } => {},
        ConversionModel::WritePkgbuild { .. } => {},
        ConversionModel::Finished { .. } => {},
    }
}

/// At the end of every conversion, with a PKGBUILD or without, each warning that
/// its job holds is shown once, and no other warning is shown.
pub proof fn warnings_are_shown_once(
    step: ConversionModel,
    reply: ConversionReply,
    warnings: Seq<Seq<char>>,
)
    requires
        !(step is Finished),
        conversion_answers(step, reply),
        next_conversion_step(step, reply) matches Ok(ConversionModel::Finished {
            warnings: shown,
            ..
        }) && shown == warnings,
    ensures
        warnings.no_duplicates(),
        job_of(step) matches Some(job) && warnings.to_set() == job.warnings.to_set(),
{
    lemma_last_job(step, reply, warnings);
    let held = job_of(step)->0.warnings;
    unique_additions_stay_unique(seq![], held);
    assert(Seq::<Seq<char>>::empty().to_set().union(held.to_set()) =~= held.to_set());
}

/// No conversion that is finished shows a warning twice.
pub proof fn finished_conversions_repeat_no_warning(
    options: ConvertModel,
    replies: Seq<ConversionReply>,
)
    ensures
        conversion_run(ConversionModel::Resolve(options), replies) matches Ok(
            ConversionModel::Finished { warnings, .. },
        ) ==> warnings.no_duplicates(),
    decreases replies.len(),
{
    if replies.len() > 0 {
        finished_conversions_repeat_no_warning(options, replies.drop_last());
        let run = conversion_run(ConversionModel::Resolve(options), replies);
        let before = conversion_run(ConversionModel::Resolve(options), replies.drop_last());
        if run is Ok && run->Ok_0 is Finished && !(before->Ok_0 is Finished) {
            warnings_are_shown_once(before->Ok_0, replies.last(), run->Ok_0->warnings);
        }
    }
}

/// The pseudo mode changes what a package is marked for, and not what its
/// payload is inspected for.
pub proof fn pseudo_mode_keeps_the_inspection(pseudo: bool, text: Seq<char>, debian: MetadataModel)
    requires
        accepted_metadata(text) == Ok::<MetadataModel, Seq<char>>(debian),
    ensures
        payload_architecture_of(pseudo_metadata(pseudo, debian)) == debian.architecture,
{
}

#[verifier::spinoff_prover]
proof fn lemma_inspection_is_next(step: ConversionModel, reply: ConversionReply)
    requires
        conversion_answers(step, reply),
        is_input_step(step),
        next_conversion_step(step, reply) matches Ok(next) && !is_input_step(next),
    ensures
        step is InspectPayload,
        reply is Inspected,
{
    match step {
        ConversionModel::Resolve(_) => {},
        ConversionModel::ReadControl(_) => {},
        ConversionModel::LoadCatalog(_) => {},
        ConversionModel::ExtractPayload(_) => {},
        ConversionModel::NormalizePayload(_) => {},
        _ => {},
    }
}

/// The reply at an index answered the inspection of the payload.
pub open spec fn inspected_at(
    options: ConvertModel,
    replies: Seq<ConversionReply>,
    index: int,
) -> bool {
    &&& 0 <= index < replies.len()
    &&& replies[index] is Inspected
    &&& conversion_run(ConversionModel::Resolve(options), replies.take(index)) matches Ok(
        ConversionModel::InspectPayload { .. },
    )
}

/// A package is described, packed or finished only after its payload was
/// inspected without a fault.
#[verifier::spinoff_prover]
pub proof fn packing_follows_an_inspection(options: ConvertModel, replies: Seq<ConversionReply>)
    requires
        conversion_run(ConversionModel::Resolve(options), replies) matches Ok(step)
            && !is_input_step(step),
    ensures
        exists|index: int| inspected_at(options, replies, index),
    decreases replies.len(),
{
    let start = ConversionModel::Resolve(options);
    if replies.len() > 0 {
        let rest = replies.drop_last();
        let before = conversion_run(start, rest)->Ok_0;
        if !is_input_step(before) {
            packing_follows_an_inspection(options, rest);
            let index = choose|index: int| inspected_at(options, rest, index);
            assert(rest.take(index) =~= replies.take(index));
            assert(inspected_at(options, replies, index));
        } else {
            lemma_inspection_is_next(before, replies.last());
            let index = replies.len() - 1;
            assert(replies.take(index) =~= rest);
            assert(inspected_at(options, replies, index));
        }
    }
}

} // verus!
