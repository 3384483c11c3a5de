//! The report on a payload.

use vstd::prelude::*;

use crate::bytes::byte_lists;
use crate::number::{decimal, decimal_text};
use crate::pieces::{join, joined_strings};

verus! {

/// What a payload needs and what stands out in it.
#[derive(Debug, Clone, PartialEq, Eq)]
pub struct CompatibilityReport {
    pub elf_files: usize,
    pub foreign_elf_files: Vec<Vec<u8>>,
    pub privileged_files: Vec<Vec<u8>>,
    pub missing_interpreters: Vec<String>,
    pub missing_libraries: Vec<String>,
    pub risky_runtime_paths: Vec<String>,
}

/// The mathematical value of a [`CompatibilityReport`].
pub struct ReportModel {
    pub elf_files: nat,
    pub foreign_elf_files: Seq<Seq<u8>>,
    pub privileged_files: Seq<Seq<u8>>,
    pub missing_interpreters: Seq<Seq<char>>,
    pub missing_libraries: Seq<Seq<char>>,
    pub risky_runtime_paths: Seq<Seq<char>>,
}

impl DeepView for CompatibilityReport {
    type V = ReportModel;

    open spec fn deep_view(&self) -> ReportModel {
        ReportModel {
            elf_files: self.elf_files as nat,
            foreign_elf_files: byte_lists(self.foreign_elf_files@),
            privileged_files: byte_lists(self.privileged_files@),
            missing_interpreters: self.missing_interpreters.deep_view(),
            missing_libraries: self.missing_libraries.deep_view(),
            risky_runtime_paths: self.risky_runtime_paths.deep_view(),
        }
    }
}

impl Default for CompatibilityReport {
    fn default() -> (result: Self)
        ensures
            result.deep_view() == (ReportModel {
                elf_files: 0,
                foreign_elf_files: seq![],
                privileged_files: seq![],
                missing_interpreters: seq![],
                missing_libraries: seq![],
                risky_runtime_paths: seq![],
            }),
    {
        let result = CompatibilityReport {
            elf_files: 0,
            foreign_elf_files: Vec::new(),
            privileged_files: Vec::new(),
            missing_interpreters: Vec::new(),
            missing_libraries: Vec::new(),
            risky_runtime_paths: Vec::new(),
        };
        let ghost model = result.deep_view();
        assert(model.foreign_elf_files =~= seq![]);
        assert(model.privileged_files =~= seq![]);
        assert(model.missing_interpreters =~= seq![]);
        assert(model.missing_libraries =~= seq![]);
        assert(model.risky_runtime_paths =~= seq![]);
        result
    }
}

/// A warning about a number of files, if there are any.
pub open spec fn count_warning(start: Seq<char>, count: nat, end: Seq<char>) -> Seq<Seq<char>> {
    if count == 0 {
        seq![]
    } else {
        seq![start + decimal(count) + end]
    }
}

/// A warning about a list of texts, if there are any.
pub open spec fn list_warning(start: Seq<char>, list: Seq<Seq<char>>) -> Seq<Seq<char>> {
    if list.len() == 0 {
        seq![]
    } else {
        seq![start + join(list, ", "@) + "."@]
    }
}

/// The warnings that a report gives rise to.
pub open spec fn report_warnings(report: ReportModel) -> Seq<Seq<char>> {
    count_warning(
        "The payload contains "@,
        report.privileged_files.len(),
        " setuid or setgid file(s); review their privileged modes before installation."@,
    ) + count_warning(
        "The payload contains "@,
        report.foreign_elf_files.len(),
        " bundled ELF file(s) for another architecture; host executables were checked separately."@,
    ) + list_warning(
        "ELF interpreters are not present on this system: "@,
        report.missing_interpreters,
    ) + list_warning(
        "Shared libraries are not present before the Pacman transaction: "@,
        report.missing_libraries,
    ) + list_warning(
        "ELF runtime paths still use Debian multiarch locations: "@,
        report.risky_runtime_paths,
    )
}

fn push_count(warnings: &mut Vec<String>, start: &str, count: usize, end: &str)
    ensures
        final(warnings).deep_view() == old(warnings).deep_view() + count_warning(
            start@,
            count as nat,
            end@,
        ),
{
    let ghost before = warnings.deep_view();
    if count > 0 {
        let text = String::from_str(start).concat(decimal_text(count as u64).as_str()).concat(end);
        warnings.push(text);
    }
    assert(warnings.deep_view() =~= before + count_warning(start@, count as nat, end@));
}

fn push_list(warnings: &mut Vec<String>, start: &str, list: &Vec<String>)
    ensures
        final(warnings).deep_view() == old(warnings).deep_view() + list_warning(
            start@,
            list.deep_view(),
        ),
{
    let ghost before = warnings.deep_view();
    if list.len() > 0 {
        let text = String::from_str(start).concat(joined_strings(list, ", ").as_str()).concat(".");
        warnings.push(text);
    }
    assert(warnings.deep_view() =~= before + list_warning(start@, list.deep_view()));
}

impl CompatibilityReport {
    /// Describe what the user should know before an installation.
    pub fn warnings(&self) -> (result: Vec<String>)
        ensures
            result.deep_view() == report_warnings(self.deep_view()),
    {
        let mut warnings: Vec<String> = Vec::new();
        push_count(
            &mut warnings,
            "The payload contains ",
            self.privileged_files.len(),
            " setuid or setgid file(s); review their privileged modes before installation.",
        );
        push_count(
            &mut warnings,
            "The payload contains ",
            self.foreign_elf_files.len(),
            " bundled ELF file(s) for another architecture; host executables were checked separately.",
        );
        push_list(
            &mut warnings,
            "ELF interpreters are not present on this system: ",
            &self.missing_interpreters,
        );
        push_list(
            &mut warnings,
            "Shared libraries are not present before the Pacman transaction: ",
            &self.missing_libraries,
        );
        push_list(
            &mut warnings,
            "ELF runtime paths still use Debian multiarch locations: ",
            &self.risky_runtime_paths,
        );
        assert(warnings.deep_view() =~= report_warnings(self.deep_view()));
        warnings
    }
}

} // verus!
