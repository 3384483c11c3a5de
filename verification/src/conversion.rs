//! The conversion of a Debian package into an Arch package.

pub mod job;
pub mod laws;
pub mod package;
pub mod pkgbuild;
pub mod pkgbuild_laws;
pub mod pkginfo;
pub mod progress;
pub mod relation_laws;
pub mod relations;
pub mod step_laws;
pub mod steps;

pub use job::{BuildJob, ContentJob, DebianJob, PayloadJob, Source};
pub use package::{epoch_to_i64, package_metadata, parse_licenses, ArchPackageMetadata};
pub use pkgbuild::pkgbuild_text;
pub use pkginfo::{pkginfo_lines, pkginfo_text};
pub use progress::update_catalog;
pub use relations::{
    remove_required_optional, resolve_relations, unique_joined, ResolvedRelations,
};
pub use steps::{
    convert, output_directory, payload_architecture, reject_reserved_payload_files,
    unique_warnings, Conversion, ConversionReply, ReservedPaths,
};
