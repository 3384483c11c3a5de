//! Debian package members and Arch package archives.

pub mod files;
pub mod gzip;
pub mod laws;
pub mod members;
pub mod package;
pub mod places;
pub mod walk;

pub use files::{
    collect_sorted_file_list, generate_mtree, generate_mtree_with_epoch, sorted_nul_file_list,
    write_sorted_nul_file_list, MtreePlan,
};
pub use gzip::write_gzip_stored;
pub use members::{
    extract_deb_members, extract_members, validate_debian_binary, validate_debian_magic,
    DebArchive, DEBIAN_AR_MAGIC,
};
pub use package::{
    create_package, create_package_with_options, try_validate_package, validate_package,
    validation_arguments, BuildReply, PackageBuild, PackageCheck, PackageOptions, ValidationStatus,
    DEFAULT_ZSTD_LEVEL,
};
pub use places::{extract_control, extract_payload};
pub use walk::{DirectoryEntry, FileWalk};
