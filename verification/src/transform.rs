//! The change of an extracted Debian payload into an Arch package root.

pub mod backup;
pub mod laws;
pub mod layout;
pub mod links;
pub mod report;
pub mod size;

pub use backup::{configuration_paths, read_backup_paths};
pub use layout::{normalize_layout, LayoutMerge};
pub use links::rewrite_link;
pub use report::{normalize_payload, PayloadChanges, TransformReport};
pub use size::{calculate_installed_size, SizedEntry};
