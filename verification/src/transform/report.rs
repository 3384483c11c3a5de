//! The report on a change of a payload.

use vstd::prelude::*;

use crate::bytes::byte_lists;
use crate::error::Result;
use crate::lists::{set_of, sorted_members};
use crate::transform::backup::{absent_warnings, present_files, read_backup_paths};
use crate::transform::size::{calculate_installed_size, installed_size_of_entries, SizedEntry};

verus! {

/// The Debian-only directory that is removed from a payload.
pub const LINTIAN_DIRECTORY: &'static str = "usr/share/lintian";

/// The program that gets a command.
pub const OPENCODE_PROGRAM: &'static str = "opt/OpenCode/ai.opencode.desktop";

/// The command of the program.
pub const OPENCODE_COMMAND: &'static str = "usr/bin/ai.opencode.desktop";

/// The target of the link that is the command.
pub const OPENCODE_TARGET: &'static str = "../../opt/OpenCode/ai.opencode.desktop";

pub const LINTIAN_WARNING: &'static str = "Removed Debian-only Lintian package metadata.";

pub const OPENCODE_WARNING: &'static str =
    "Added the OpenCode command link as an owned package file.";

/// What a change of a payload gave.
#[derive(Debug, Clone, PartialEq, Eq)]
pub struct TransformReport {
    pub installed_size: u64,
    pub backup_paths: Vec<String>,
    pub warnings: Vec<String>,
}

/// What was found in and changed of a payload.
#[derive(Debug, Clone, PartialEq, Eq)]
pub struct PayloadChanges {
    /// The Lintian metadata was removed.
    pub lintian_removed: bool,
    /// The command link was added.
    pub command_added: bool,
    /// The configuration files that the package names.
    pub configuration_files: Vec<Vec<u8>>,
    /// Whether each configuration file is in the payload.
    pub configuration_present: Vec<bool>,
    /// The entries of the changed payload.
    pub entries: Vec<SizedEntry>,
}

/// Decide whether the payload gets the command link: the program must be a
/// file, and nothing may stand in the place of the link.
pub fn needs_command_link(program_is_file: bool, command_exists: bool) -> (result: bool)
    ensures
        result == (program_is_file && !command_exists),
{
    program_is_file && !command_exists
}

/// The warnings about a change.
pub open spec fn change_warnings(changes: PayloadChanges) -> Seq<Seq<char>> {
    let removed = if changes.lintian_removed {
        seq![LINTIAN_WARNING@]
    } else {
        seq![]
    };
    let added = if changes.command_added {
        seq![OPENCODE_WARNING@]
    } else {
        seq![]
    };
    removed + added + absent_warnings(
        byte_lists(changes.configuration_files@),
        changes.configuration_present@,
    )
}

/// Report on a change of a payload.
pub fn normalize_payload(changes: &PayloadChanges) -> (result: Result<TransformReport>)
    requires
        changes.configuration_files@.len() == changes.configuration_present@.len(),
    ensures
        match result {
            Ok(report) => {
                &&& installed_size_of_entries(changes.entries@) == Ok::<u64, Seq<char>>(
                    report.installed_size,
                )
                &&& sorted_members(
                    report.backup_paths.deep_view(),
                    set_of(
                        present_files(
                            byte_lists(changes.configuration_files@),
                            changes.configuration_present@,
                        ),
                    ),
                )
                &&& report.warnings.deep_view() == change_warnings(*changes)
            },
            Err(error) => installed_size_of_entries(changes.entries@) == Err::<u64, Seq<char>>(
                error@,
            ),
        },
{
    let mut warnings: Vec<String> = Vec::new();
    if changes.lintian_removed {
        warnings.push(String::from_str(LINTIAN_WARNING));
    }
    if changes.command_added {
        warnings.push(String::from_str(OPENCODE_WARNING));
    }
    let ghost first = warnings.deep_view();
    let (backup_paths, more) = read_backup_paths(
        &changes.configuration_files,
        &changes.configuration_present,
    );
    let mut more = more;
    let ghost second = more.deep_view();
    warnings.append(&mut more);
    assert(warnings.deep_view() =~= first + second);
    assert(warnings.deep_view() =~= change_warnings(*changes));
    let installed_size = calculate_installed_size(&changes.entries)?;
    Ok(TransformReport { installed_size, backup_paths, warnings })
}

} // verus!
