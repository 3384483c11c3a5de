//! Debian package relations and their deterministic mapping to Arch packages.

pub mod catalog;
pub mod constraint;
pub mod laws;
pub mod mapping;
pub mod relation;
pub mod relation_set;
pub mod resolver;
pub mod sections;
pub mod version;

pub use catalog::PackageCatalog;
pub use mapping::{built_in_package_mapping, PackageMapping};
pub use relation::{
    PackageQualifier, Relation, RelationGroup, RelationSet, Restriction, VersionConstraint,
    VersionOperator,
};
pub use resolver::{AlternativeSelection, DependencyResolver, Resolution};
pub use version::compare_debian_versions;
