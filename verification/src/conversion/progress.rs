//! What a conversion tells the user.

use vstd::prelude::*;

use crate::cli::ConvertModel;
use crate::conversion::laws::follows_options;
use crate::conversion::steps::{Conversion, ConversionModel};
use crate::dependency::catalog::PackageCatalog;
use crate::number::{decimal, decimal_text};

verus! {

/// The line that announces a step.
pub open spec fn announcement(step: ConversionModel) -> Option<Seq<char>> {
    match step {
        ConversionModel::ReadControl(source) => if source.options.quiet {
            None
        } else {
            Some("Reading Debian package metadata..."@)
        },
        ConversionModel::LoadCatalog(job) => if job.source.options.quiet {
            None
        } else {
            Some("Resolving dependencies from the local Pacman catalog..."@)
        },
        ConversionModel::ExtractPayload(job) => if job.job.source.options.quiet {
            None
        } else {
            Some("Extracting and normalizing the package payload..."@)
        },
        ConversionModel::Index { job, .. } => if job.source.options.quiet {
            None
        } else {
            Some("Generating the package file index..."@)
        },
        ConversionModel::Pack { job, .. } => if job.source.options.quiet {
            None
        } else {
            Some(
                "Writing the Arch package with Zstandard level "@ + decimal(
                    job.source.options.compression_level as nat,
                ) + "..."@,
            )
        },
        ConversionModel::HashInput { job, .. } => if job.source.options.quiet {
            None
        } else {
            Some("Generating a reproducible PKGBUILD..."@)
        },
        _ => None,
    }
}

fn unless_quiet(quiet: bool, message: &str) -> (result: Option<String>)
    ensures
        result.deep_view() == if quiet {
            None
        } else {
            Some(message@)
        },
{
    if quiet {
        None
    } else {
        Some(String::from_str(message))
    }
}

impl Conversion {
    /// The line that announces the step.
    #[verifier::spinoff_prover]
    pub fn progress(&self) -> (result: Option<String>)
        ensures
            result.deep_view() == announcement(self.deep_view()),
    {
        match self {
            Conversion::ReadControl(source) => unless_quiet(
                source.options.quiet,
                "Reading Debian package metadata...",
            ),
            Conversion::LoadCatalog(job) => unless_quiet(
                job.source.options.quiet,
                "Resolving dependencies from the local Pacman catalog...",
            ),
            Conversion::ExtractPayload(job) => unless_quiet(
                job.job.source.options.quiet,
                "Extracting and normalizing the package payload...",
            ),
            Conversion::Index { job, .. } => unless_quiet(
                job.source.options.quiet,
                "Generating the package file index...",
            ),
            Conversion::Pack { job, .. } => {
                let level = decimal_text(job.source.options.compression_level as u64);
                let message = String::from_str(
                    "Writing the Arch package with Zstandard level ",
                ).concat(level.as_str()).concat("...");
                unless_quiet(job.source.options.quiet, message.as_str())
            },
            Conversion::HashInput { job, .. } => unless_quiet(
                job.source.options.quiet,
                "Generating a reproducible PKGBUILD...",
            ),
            _ => None,
        }
    }
}

/// Describe the state of the package catalog.
pub fn update_catalog(catalog: &PackageCatalog) -> (result: &'static str)
    ensures
        result@ == if catalog@.availability_known {
            "The local Pacman catalog is ready."@
        } else {
            "The built-in dependency map is ready. Pacman package availability is unknown."@
        },
{
    if catalog.availability_is_known() {
        "The local Pacman catalog is ready."
    } else {
        "The built-in dependency map is ready. Pacman package availability is unknown."
    }
}

/// A conversion that is to be quiet announces nothing.
pub proof fn quiet_conversions_say_nothing(step: ConversionModel, options: ConvertModel)
    requires
        follows_options(step, options),
        options.quiet,
    ensures
        announcement(step) is None,
{
}

} // verus!
