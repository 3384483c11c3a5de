//! Compatibility checks of an extracted payload with the host.

pub mod elf;
pub mod inspection;
pub mod inspection_laws;
pub mod integer;
pub mod laws;
pub mod report;

pub use elf::{parse_elf, ElfClass, ParsedElf};
pub use inspection::{inspect_payload, Inspection, PayloadContent, PayloadEntry};
pub use report::CompatibilityReport;
