//! The review and the installation of a Debian package.

pub mod annotations;
pub mod installation;
pub mod laws;
pub mod receipt;
pub mod review;

pub use annotations::{parse_annotations, PackageAnnotations};
pub use installation::{install, Installation, InstallationReply};
pub use receipt::InstallReceipt;
pub use review::{is_affirmative, register_handler, DESKTOP_FILE_ID, PRIVILEGED_HELPER};
