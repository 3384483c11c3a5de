//! Parsing and normalization of Debian binary package control metadata.
//!
//! Debian control files use the Deb822 format.  This module keeps continuation
//! lines intact so that callers can distinguish the short and long parts of a
//! description.  Other folded fields can be read with
//! [`DebianControl::get_unfolded`].

pub mod arch_version;
pub mod description;
pub mod laws;
pub mod metadata;
pub mod paragraph;
pub mod record_laws;

pub use arch_version::{debian_version_to_arch, ArchVersion};
pub use description::DebianDescription;
pub use metadata::{map_architecture, DebianMetadata, RelationField};
pub use paragraph::DebianControl;
