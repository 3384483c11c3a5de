//! Conversion of Debian binary packages into Arch Linux packages.

pub mod archive;
pub mod attempts;
pub mod bytes;
pub mod cli;
pub mod cli_laws;
pub mod collection;
pub mod compatibility;
pub mod control;
pub mod conversion;
pub mod dependency;
pub mod digest;
pub mod encoding;
pub mod error;
pub mod installer;
pub mod lists;
pub mod number;
pub mod order;
pub mod paths;
pub mod pieces;
pub mod privileged;
pub mod process;
pub mod scripts;
pub mod text;
pub mod transform;
pub mod workspace;
