//! The inspection of the files of a payload.

use vstd::prelude::*;
use vstd::utf8::{decode_utf8, encode_utf8, valid_utf8};

use crate::bytes::{byte_lists, copy};
use crate::collection::TextSet;
use crate::compatibility::elf::{elf_of, parse_elf, ElfClass, ElfModel, ParsedElf};
use crate::compatibility::report::{CompatibilityReport, ReportModel};
use crate::encoding::{decode, lemma_decoded, lossy_text};
use crate::error::{AppError, Outcome, Result};
use crate::lists::{push_copies, set_of, sorted_members, sorted_rest};
use crate::number::{decimal, decimal_text};
use crate::paths::{
    display, file_name, is_under, join_path, joined_path, name_of, starts_with_path,
};
use crate::pieces::{
    contains_text, occurs_in, lines, split, split_at_class, split_lines, split_words, texts, words,
};
use crate::text::{chars, equal, has_prefix, string, CharClass};

verus! {

// ---------------------------------------------------------------------------
// Host
// ---------------------------------------------------------------------------
/// The sort of ELF file that an architecture runs.
#[derive(Clone, Copy, Debug, PartialEq, Eq, Structural)]
pub struct ExpectedElf {
    pub class: ElfClass,
    pub little_endian: bool,
    pub machine: u16,
}

/// The sort of ELF file that an Arch architecture runs.
pub open spec fn expected_for(architecture: Seq<char>) -> Option<ExpectedElf> {
    if architecture == "x86_64"@ {
        Some(ExpectedElf { class: ElfClass::Elf64, little_endian: true, machine: 62 })
    } else if architecture == "i686"@ {
        Some(ExpectedElf { class: ElfClass::Elf32, little_endian: true, machine: 3 })
    } else if architecture == "aarch64"@ {
        Some(ExpectedElf { class: ElfClass::Elf64, little_endian: true, machine: 183 })
    } else if architecture == "arm"@ || architecture == "armv7h"@ {
        Some(ExpectedElf { class: ElfClass::Elf32, little_endian: true, machine: 40 })
    } else if architecture == "ppc64le"@ {
        Some(ExpectedElf { class: ElfClass::Elf64, little_endian: true, machine: 21 })
    } else if architecture == "ppc64"@ {
        Some(ExpectedElf { class: ElfClass::Elf64, little_endian: false, machine: 21 })
    } else if architecture == "riscv64"@ {
        Some(ExpectedElf { class: ElfClass::Elf64, little_endian: true, machine: 243 })
    } else if architecture == "s390x"@ {
        Some(ExpectedElf { class: ElfClass::Elf64, little_endian: false, machine: 22 })
    } else {
        None
    }
}

/// Get the sort of ELF file that an Arch architecture runs.
pub fn expected_elf(architecture: &str) -> (result: Option<ExpectedElf>)
    ensures
        result == expected_for(architecture@),
{
    if equal(architecture, "x86_64") {
        Some(ExpectedElf { class: ElfClass::Elf64, little_endian: true, machine: 62 })
    } else if equal(architecture, "i686") {
        Some(ExpectedElf { class: ElfClass::Elf32, little_endian: true, machine: 3 })
    } else if equal(architecture, "aarch64") {
        Some(ExpectedElf { class: ElfClass::Elf64, little_endian: true, machine: 183 })
    } else if equal(architecture, "arm") || equal(architecture, "armv7h") {
        Some(ExpectedElf { class: ElfClass::Elf32, little_endian: true, machine: 40 })
    } else if equal(architecture, "ppc64le") {
        Some(ExpectedElf { class: ElfClass::Elf64, little_endian: true, machine: 21 })
    } else if equal(architecture, "ppc64") {
        Some(ExpectedElf { class: ElfClass::Elf64, little_endian: false, machine: 21 })
    } else if equal(architecture, "riscv64") {
        Some(ExpectedElf { class: ElfClass::Elf64, little_endian: true, machine: 243 })
    } else if equal(architecture, "s390x") {
        Some(ExpectedElf { class: ElfClass::Elf64, little_endian: false, machine: 22 })
    } else {
        None
    }
}

/// The text names a shared library.
pub open spec fn is_library_name(name: Seq<char>) -> bool {
    occurs_in(".so"@, name)
}

/// The library that a line of `ldconfig -p` names.
pub open spec fn line_library(line: Seq<char>) -> Option<Seq<char>> {
    let parts = words(line);
    if parts.len() > 0 && is_library_name(parts[0]) {
        Some(parts[0])
    } else {
        None
    }
}

/// The libraries that lines of `ldconfig -p` name.
pub open spec fn line_libraries(all_lines: Seq<Seq<char>>) -> Set<Seq<char>>
    decreases all_lines.len(),
{
    if all_lines.len() == 0 {
        Set::empty()
    } else {
        match line_library(all_lines.last()) {
            Some(name) => line_libraries(all_lines.drop_last()).insert(name),
            None => line_libraries(all_lines.drop_last()),
        }
    }
}

/// The library names of a list of file names.
pub open spec fn file_libraries(names: Seq<Seq<char>>) -> Set<Seq<char>>
    decreases names.len(),
{
    if names.len() == 0 {
        Set::empty()
    } else if is_library_name(names.last()) {
        file_libraries(names.drop_last()).insert(names.last())
    } else {
        file_libraries(names.drop_last())
    }
}

fn read_line_libraries(output: &str) -> (result: TextSet)
    ensures
        result@ == line_libraries(lines(output@)),
{
    let characters = chars(output);
    let all_lines = split_lines(characters.as_slice());
    let ghost all = texts(all_lines@);
    let mut libraries = TextSet::new();
    for index in 0..all_lines.len()
        invariant
            all == texts(all_lines@),
            libraries@ == line_libraries(all.take(index as int)),
    {
        proof {
            assert(all.take(index + 1).drop_last() == all.take(index as int));
            assert(all.take(index + 1).last() == all_lines@[index as int]@);
        }
        let parts = split_words(all_lines[index]);
        let ghost part_texts = texts(parts@);
        assert(part_texts.len() == parts@.len());
        if parts.len() > 0 {
            assert(part_texts[0] == parts@[0]@);
            if contains_text(parts[0], ".so") {
                libraries.insert(string(parts[0]));
            }
        }
    }
    assert(all.take(all.len() as int) == all);
    libraries
}

/// The shared libraries of the system: those that `ldconfig -p` lists, and
/// those among the file names of the library directories.
pub fn system_library_names(ldconfig: Option<&str>, file_names: &Vec<String>) -> (result: TextSet)
    ensures
        result@ == match ldconfig {
            Some(output) => line_libraries(lines(output@)),
            None => Set::empty(),
        }.union(file_libraries(file_names.deep_view())),
{
    let mut libraries = match ldconfig {
        Some(output) => read_line_libraries(output),
        None => TextSet::new(),
    };
    let ghost listed = libraries@;
    let ghost names = file_names.deep_view();
    assert(libraries@ =~= listed.union(file_libraries(names.take(0))));
    for index in 0..file_names.len()
        invariant
            names == file_names.deep_view(),
            libraries@ == listed.union(file_libraries(names.take(index as int))),
    {
        proof {
            assert(names.take(index + 1).drop_last() == names.take(index as int));
            assert(names.take(index + 1).last() == file_names@[index as int]@);
        }
        let name = chars(file_names[index].as_str());
        if contains_text(name.as_slice(), ".so") {
            libraries.insert(file_names[index].clone());
        }
        assert(libraries@ =~= listed.union(file_libraries(names.take(index + 1))));
    }
    assert(names.take(names.len() as int) == names);
    libraries
}

// ---------------------------------------------------------------------------
// Entries
// ---------------------------------------------------------------------------
/// What stands at a path of a payload.
#[derive(Clone, Debug)]
pub enum PayloadContent {
    /// A device, a pipe or a socket.
    Special,
    /// A regular file.
    File { mode: u32, bytes: Vec<u8> },
    /// A directory or a symbolic link.
    Other,
}

/// A path of a payload, relative to its root.
#[derive(Clone, Debug)]
pub struct PayloadEntry {
    pub path: Vec<u8>,
    pub content: PayloadContent,
}

/// The state of an inspection after some entries.
pub struct InspectionModel {
    pub root: Seq<u8>,
    pub expected: Option<ExpectedElf>,
    pub elf_files: nat,
    pub foreign: Seq<Seq<u8>>,
    pub privileged: Seq<Seq<u8>>,
    pub provided: Set<Seq<char>>,
    pub parsed: Seq<ElfModel>,
}

/// The path lies in a directory for commands.
pub open spec fn is_command(path: Seq<u8>) -> bool {
    ||| is_under(path, encode_utf8("usr/bin"@))
    ||| is_under(path, encode_utf8("bin"@))
    ||| is_under(path, encode_utf8("usr/sbin"@))
}

/// Test whether a path lies in a directory for commands.
pub fn is_command_path(path: &[u8]) -> (result: bool)
    ensures
        result == is_command(path@),
{
    starts_with_path(path, "usr/bin".as_bytes()) || starts_with_path(path, "bin".as_bytes())
        || starts_with_path(path, "usr/sbin".as_bytes())
}

/// The ELF file is of the expected sort.
pub open spec fn is_expected(elf: ElfModel, expected: Option<ExpectedElf>) -> bool {
    expected == Some(
        ExpectedElf {
            class: elf.class,
            little_endian: elf.little_endian,
            machine: elf.machine,
        },
    )
}

/// The name of a word size.
pub open spec fn class_name(class: ElfClass) -> Seq<char> {
    match class {
        ElfClass::Elf32 => "Elf32"@,
        ElfClass::Elf64 => "Elf64"@,
    }
}

/// The file is marked to run with the rights of its owner or group.
pub open spec fn is_privileged(mode: u32) -> bool {
    mode & 0o6000 != 0
}

/// The state after a regular file was noted.
pub open spec fn with_file(state: InspectionModel, path: Seq<u8>, mode: u32) -> InspectionModel {
    InspectionModel {
        privileged: if is_privileged(mode) {
            state.privileged.push(path)
        } else {
            state.privileged
        },
        provided: match name_of(path) {
            Some(name) if valid_utf8(name) => state.provided.insert(decode_utf8(name)),
            _ => state.provided,
        },
        ..state
    }
}

/// The state after an ELF file.  An executable of another sort than the expected
/// one is refused.  Where no sort is expected there is no definite mismatch, and
/// the file is listed as foreign.
pub open spec fn with_elf(state: InspectionModel, path: Seq<u8>, elf: ElfModel) -> Outcome<
    InspectionModel,
> {
    if is_expected(elf, state.expected) {
        Ok(
            InspectionModel {
                elf_files: state.elf_files + 1,
                parsed: state.parsed.push(elf),
                ..state
            },
        )
    } else if state.expected is Some && (elf.interpreter is Some || is_command(path)) {
        Err(
            "ELF architecture mismatch in executable "@ + lossy_text(path) + ": machine "@
                + decimal(elf.machine as nat) + ", class "@ + class_name(elf.class) + "."@,
        )
    } else {
        Ok(
            InspectionModel {
                elf_files: state.elf_files + 1,
                foreign: state.foreign.push(path),
                ..state
            },
        )
    }
}

/// The state after one more entry.
pub open spec fn after_payload_entry(state: InspectionModel, entry: PayloadEntry) -> Outcome<
    InspectionModel,
> {
    let path = entry.path@;
    if path.len() == 0 {
        Ok(state)
    } else {
        match entry.content {
            PayloadContent::Special => Err(
                "The Debian payload contains an unsupported special file: "@ + lossy_text(path),
            ),
            PayloadContent::Other => Ok(state),
            PayloadContent::File { mode, bytes } => {
                let noted = with_file(state, path, mode);
                match elf_of(bytes@, lossy_text(joined_path(state.root, path))) {
                    Err(message) => Err(message),
                    Ok(None) => Ok(noted),
                    Ok(Some(elf)) => with_elf(noted, path, elf),
                }
            },
        }
    }
}

/// The state after a list of entries.
pub open spec fn after_payload_entries(state: InspectionModel, entries: Seq<PayloadEntry>) -> Outcome<
    InspectionModel,
>
    decreases entries.len(),
{
    if entries.len() == 0 {
        Ok(state)
    } else {
        match after_payload_entries(state, entries.drop_last()) {
            Err(message) => Err(message),
            Ok(before) => after_payload_entry(before, entries.last()),
        }
    }
}

/// The state before the first entry.
pub open spec fn new_inspection(root: Seq<u8>, architecture: Seq<char>) -> InspectionModel {
    InspectionModel {
        root,
        expected: expected_for(architecture),
        elf_files: 0,
        foreign: seq![],
        privileged: seq![],
        provided: Set::empty(),
        parsed: seq![],
    }
}

// ---------------------------------------------------------------------------
// Needs
// ---------------------------------------------------------------------------
/// The interpreters of ELF files.
pub open spec fn all_interpreters(parsed: Seq<ElfModel>) -> Seq<Seq<char>>
    decreases parsed.len(),
{
    if parsed.len() == 0 {
        seq![]
    } else {
        let before = all_interpreters(parsed.drop_last());
        match parsed.last().interpreter {
            Some(interpreter) => before.push(interpreter),
            None => before,
        }
    }
}

/// The libraries that ELF files need.
pub open spec fn all_needed(parsed: Seq<ElfModel>) -> Seq<Seq<char>>
    decreases parsed.len(),
{
    if parsed.len() == 0 {
        seq![]
    } else {
        all_needed(parsed.drop_last()) + parsed.last().needed
    }
}

/// The directories of a runtime path that belong to Debian's layout.
pub open spec fn risky_parts(parts: Seq<Seq<char>>) -> Seq<Seq<char>> {
    parts.filter(|part: Seq<char>| occurs_in("linux-gnu"@, part))
}

/// The risky directories of a list of runtime paths.
pub open spec fn risky_of_paths(paths: Seq<Seq<char>>) -> Seq<Seq<char>>
    decreases paths.len(),
{
    if paths.len() == 0 {
        seq![]
    } else {
        risky_of_paths(paths.drop_last()) + risky_parts(
            split(paths.last(), CharClass::Exactly(':')),
        )
    }
}

/// The risky directories in the runtime paths of ELF files.
pub open spec fn all_risky(parsed: Seq<ElfModel>) -> Seq<Seq<char>>
    decreases parsed.len(),
{
    if parsed.len() == 0 {
        seq![]
    } else {
        all_risky(parsed.drop_last()) + risky_of_paths(parsed.last().runtime_paths)
    }
}

/// The report is that of the state, given the interpreters that exist and the
/// libraries of the system.
pub open spec fn is_report_of(
    report: ReportModel,
    state: InspectionModel,
    present: Set<Seq<char>>,
    system: Set<Seq<char>>,
) -> bool {
    &&& report.elf_files == state.elf_files
    &&& report.foreign_elf_files == state.foreign
    &&& report.privileged_files == state.privileged
    &&& sorted_members(
        report.missing_interpreters,
        set_of(all_interpreters(state.parsed)).difference(present),
    )
    &&& sorted_members(
        report.missing_libraries,
        set_of(all_needed(state.parsed)).difference(state.provided).difference(system),
    )
    &&& sorted_members(report.risky_runtime_paths, set_of(all_risky(state.parsed)))
}

/// The places where an interpreter can be: in the payload and on the host.
pub open spec fn interpreter_places(root: Seq<u8>, interpreter: Seq<char>) -> Seq<Seq<u8>> {
    if has_prefix(interpreter, "/"@) {
        seq![
            joined_path(root, encode_utf8(interpreter.skip(1))),
            encode_utf8(interpreter),
        ]
    } else {
        seq![encode_utf8(interpreter)]
    }
}

/// List the places where an interpreter can be.
pub fn interpreter_candidates(root: &[u8], interpreter: &str) -> (result: Vec<Vec<u8>>)
    ensures
        byte_lists(result@) == interpreter_places(root@, interpreter@),
{
    let mut places: Vec<Vec<u8>> = Vec::new();
    let characters = chars(interpreter);
    assert("/"@.len() == 1) by {
        reveal_strlit("/");
    }
    if let Some(rest) = crate::text::strip_prefix(characters.as_slice(), "/") {
        let text = string(rest);
        places.push(join_path(root, text.as_str().as_bytes()));
    }
    places.push(copy(interpreter.as_bytes()));
    assert(byte_lists(places@) =~= interpreter_places(root@, interpreter@));
    places
}

// ---------------------------------------------------------------------------
// Inspection
// ---------------------------------------------------------------------------
/// The inspection of the entries of a payload, one after the other.
pub struct Inspection {
    root: Vec<u8>,
    expected: Option<ExpectedElf>,
    elf_files: usize,
    foreign: Vec<Vec<u8>>,
    privileged: Vec<Vec<u8>>,
    provided: TextSet,
    parsed: Vec<ParsedElf>,
}

impl View for Inspection {
    type V = InspectionModel;

    closed spec fn view(&self) -> InspectionModel {
        InspectionModel {
            root: self.root@,
            expected: self.expected,
            elf_files: self.elf_files as nat,
            foreign: byte_lists(self.foreign@),
            privileged: byte_lists(self.privileged@),
            provided: self.provided@,
            parsed: self.parsed.deep_view(),
        }
    }
}

fn provided_name(path: &[u8]) -> (result: Option<String>)
    ensures
        match result {
            Some(text) => name_of(path@) matches Some(name) && valid_utf8(name) && text@
                == decode_utf8(name),
            None => name_of(path@) is None || !valid_utf8(name_of(path@)->0),
        },
{
    match file_name(path) {
        None => None,
        Some(name) => match decode(name) {
            Ok(text) => {
                proof {
                    lemma_decoded(text@, name@);
                }
                Some(text)
            },
            Err(_) => None,
        },
    }
}

impl Inspection {
    /// Start the inspection of a payload for an Arch architecture.
    pub fn new(root: &[u8], architecture: &str) -> (result: Self)
        ensures
            result@ == new_inspection(root@, architecture@),
    {
        let result = Inspection {
            root: copy(root),
            expected: expected_elf(architecture),
            elf_files: 0,
            foreign: Vec::new(),
            privileged: Vec::new(),
            provided: TextSet::new(),
            parsed: Vec::new(),
        };
        assert(result@.foreign =~= seq![]);
        assert(result@.privileged =~= seq![]);
        assert(result@.parsed =~= seq![]);
        result
    }

    /// The number of ELF files so far.
    pub fn elf_files(&self) -> (result: usize)
        ensures
            result == self@.elf_files,
    {
        self.elf_files
    }

    fn note_file(&mut self, path: &[u8], mode: u32)
        ensures
            final(self)@ == with_file(old(self)@, path@, mode),
    {
        let ghost privileged = byte_lists(self.privileged@);
        if mode & 0o6000 != 0 {
            let one = copy(path);
            self.privileged.push(one);
            assert(byte_lists(self.privileged@) =~= privileged.push(path@));
        }
        if let Some(name) = provided_name(path) {
            self.provided.insert(name);
        }
    }

    fn note_elf(&mut self, path: &[u8], elf: ParsedElf) -> (result: Result<()>)
        requires
            old(self)@.elf_files < usize::MAX,
        ensures
            match result {
                Ok(_) => with_elf(old(self)@, path@, elf.deep_view()) == Ok::<
                    InspectionModel,
                    Seq<char>,
                >(final(self)@),
                Err(error) => with_elf(old(self)@, path@, elf.deep_view()) == Err::<
                    InspectionModel,
                    Seq<char>,
                >(error@),
            },
    {
        let matches = match self.expected {
            Some(expected) => elf.class == expected.class && elf.little_endian
                == expected.little_endian && elf.machine == expected.machine,
            None => false,
        };
        if matches {
            let ghost parsed = self.parsed.deep_view();
            self.parsed.push(elf);
            assert(self.parsed.deep_view() =~= parsed.push(elf.deep_view()));
        } else {
            if self.expected.is_some() && (elf.interpreter.is_some() || is_command_path(path)) {
                let class = match elf.class {
                    ElfClass::Elf32 => "Elf32",
                    ElfClass::Elf64 => "Elf64",
                };
                return Err(
                    AppError::new(
                        String::from_str("ELF architecture mismatch in executable ").concat(
                            display(path).as_str(),
                        ).concat(": machine ").concat(
                            decimal_text(elf.machine as u64).as_str(),
                        ).concat(", class ").concat(class).concat("."),
                    ),
                );
            }
            let ghost foreign = byte_lists(self.foreign@);
            let one = copy(path);
            self.foreign.push(one);
            assert(byte_lists(self.foreign@) =~= foreign.push(path@));
        }
        self.elf_files = self.elf_files + 1;
        Ok(())
    }

    /// Inspect the next entry.
    pub fn add_entry(&mut self, entry: &PayloadEntry) -> (result: Result<()>)
        requires
            old(self)@.elf_files < usize::MAX,
        ensures
            match result {
                Ok(_) => after_payload_entry(old(self)@, *entry) == Ok::<
                    InspectionModel,
                    Seq<char>,
                >(final(self)@),
                Err(error) => after_payload_entry(old(self)@, *entry) == Err::<
                    InspectionModel,
                    Seq<char>,
                >(error@),
            },
    {
        let path = entry.path.as_slice();
        if path.len() == 0 {
            return Ok(());
        }
        match &entry.content {
            PayloadContent::Special => Err(
                AppError::new(
                    String::from_str(
                        "The Debian payload contains an unsupported special file: ",
                    ).concat(display(path).as_str()),
                ),
            ),
            PayloadContent::Other => Ok(()),
            PayloadContent::File { mode, bytes } => {
                self.note_file(path, *mode);
                let whole = join_path(self.root.as_slice(), path);
                let name = display(whole.as_slice());
                match parse_elf(bytes.as_slice(), name.as_str())? {
                    None => Ok(()),
                    Some(elf) => self.note_elf(path, elf),
                }
            },
        }
    }

    /// List the interpreters that the ELF files name.
    pub fn interpreters(&self) -> (result: Vec<String>)
        ensures
            result.deep_view() == all_interpreters(self@.parsed),
    {
        let mut result: Vec<String> = Vec::new();
        let ghost parsed = self.parsed.deep_view();
        assert(result.deep_view() =~= seq![]);
        for index in 0..self.parsed.len()
            invariant
                parsed == self.parsed.deep_view(),
                result.deep_view() == all_interpreters(parsed.take(index as int)),
        {
            let ghost before = result.deep_view();
            proof {
                assert(parsed.take(index + 1).drop_last() == parsed.take(index as int));
                assert(parsed.take(index + 1).last() == self.parsed@[index as int].deep_view());
            }
            if let Some(interpreter) = &self.parsed[index].interpreter {
                result.push(interpreter.clone());
                assert(result.deep_view() =~= before.push(interpreter@));
            }
        }
        assert(parsed.take(parsed.len() as int) == parsed);
        result
    }

    fn needed(&self) -> (result: Vec<String>)
        ensures
            result.deep_view() == all_needed(self@.parsed),
    {
        let mut result: Vec<String> = Vec::new();
        let ghost parsed = self.parsed.deep_view();
        assert(result.deep_view() =~= seq![]);
        for index in 0..self.parsed.len()
            invariant
                parsed == self.parsed.deep_view(),
                result.deep_view() == all_needed(parsed.take(index as int)),
        {
            proof {
                assert(parsed.take(index + 1).drop_last() == parsed.take(index as int));
                assert(parsed.take(index + 1).last() == self.parsed@[index as int].deep_view());
            }
            push_copies(&mut result, &self.parsed[index].needed);
        }
        assert(parsed.take(parsed.len() as int) == parsed);
        result
    }

    fn risky(&self) -> (result: Vec<String>)
        ensures
            result.deep_view() == all_risky(self@.parsed),
    {
        let mut result: Vec<String> = Vec::new();
        let ghost parsed = self.parsed.deep_view();
        assert(result.deep_view() =~= seq![]);
        for index in 0..self.parsed.len()
            invariant
                parsed == self.parsed.deep_view(),
                result.deep_view() == all_risky(parsed.take(index as int)),
        {
            proof {
                assert(parsed.take(index + 1).drop_last() == parsed.take(index as int));
                assert(parsed.take(index + 1).last() == self.parsed@[index as int].deep_view());
            }
            push_risky_paths(&mut result, &self.parsed[index].runtime_paths);
        }
        assert(parsed.take(parsed.len() as int) == parsed);
        result
    }

    /// Finish the inspection with the interpreters that exist, in the payload
    /// or on the host, and the libraries of the system.
    pub fn finish(self, present: &TextSet, system_libraries: &TextSet) -> (result:
        CompatibilityReport)
        ensures
            is_report_of(result.deep_view(), self@, present@, system_libraries@),
    {
        let nothing = TextSet::new();
        let interpreters = self.interpreters();
        let needed = self.needed();
        let risky = self.risky();
        let missing_interpreters = sorted_rest(&interpreters, present, &nothing);
        let missing_libraries = sorted_rest(&needed, &self.provided, system_libraries);
        let risky_runtime_paths = sorted_rest(&risky, &nothing, &nothing);
        proof {
            let some = set_of(interpreters.deep_view()).difference(present@);
            assert(some.difference(Set::empty()) =~= some);
            let all = set_of(risky.deep_view());
            assert(all.difference(Set::empty()).difference(Set::empty()) =~= all);
        }
        CompatibilityReport {
            elf_files: self.elf_files,
            foreign_elf_files: self.foreign,
            privileged_files: self.privileged,
            missing_interpreters,
            missing_libraries,
            risky_runtime_paths,
        }
    }
}

fn push_risky_parts(list: &mut Vec<String>, path: &str)
    ensures
        final(list).deep_view() == old(list).deep_view() + risky_parts(
            split(path@, CharClass::Exactly(':')),
        ),
{
    let ghost start = list.deep_view();
    let characters = chars(path);
    let parts = split_at_class(characters.as_slice(), CharClass::Exactly(':'));
    let ghost all = texts(parts@);
    assert(list.deep_view() =~= start + risky_parts(all.take(0))) by {
        reveal(Seq::filter);
    }
    for index in 0..parts.len()
        invariant
            all == texts(parts@),
            list.deep_view() == start + risky_parts(all.take(index as int)),
    {
        let ghost before = list.deep_view();
        proof {
            assert(all.take(index + 1).drop_last() == all.take(index as int));
            assert(all.take(index + 1).last() == parts@[index as int]@);
            reveal(Seq::filter);
        }
        if contains_text(parts[index], "linux-gnu") {
            list.push(string(parts[index]));
            assert(list.deep_view() =~= before.push(parts@[index as int]@));
        }
        assert(list.deep_view() =~= start + risky_parts(all.take(index + 1)));
    }
    assert(all.take(all.len() as int) == all);
}

fn push_risky_paths(list: &mut Vec<String>, paths: &Vec<String>)
    ensures
        final(list).deep_view() == old(list).deep_view() + risky_of_paths(paths.deep_view()),
{
    let ghost start = list.deep_view();
    let ghost all = paths.deep_view();
    assert(list.deep_view() =~= start + risky_of_paths(all.take(0)));
    for index in 0..paths.len()
        invariant
            all == paths.deep_view(),
            list.deep_view() == start + risky_of_paths(all.take(index as int)),
    {
        proof {
            assert(all.take(index + 1).drop_last() == all.take(index as int));
            assert(all.take(index + 1).last() == paths@[index as int]@);
        }
        push_risky_parts(list, paths[index].as_str());
        assert(list.deep_view() =~= start + risky_of_paths(all.take(index + 1)));
    }
    assert(all.take(all.len() as int) == all);
}

/// Inspect a whole payload.
pub fn inspect_payload(
    root: &[u8],
    architecture: &str,
    entries: &Vec<PayloadEntry>,
    present: &TextSet,
    system_libraries: &TextSet,
) -> (result: Result<CompatibilityReport>)
    ensures
        match result {
            Ok(report) => after_payload_entries(
                new_inspection(root@, architecture@),
                entries@,
            ) matches Ok(state) && is_report_of(
                report.deep_view(),
                state,
                present@,
                system_libraries@,
            ),
            Err(error) => after_payload_entries(new_inspection(root@, architecture@), entries@)
                == Err::<InspectionModel, Seq<char>>(error@),
        },
{
    let mut inspection = Inspection::new(root, architecture);
    let ghost start = inspection@;
    for index in 0..entries.len()
        invariant
            start == new_inspection(root@, architecture@),
            inspection@.elf_files <= index,
            after_payload_entries(start, entries@.take(index as int)) == Ok::<
                InspectionModel,
                Seq<char>,
            >(inspection@),
    {
        proof {
            assert(entries@.take(index + 1).drop_last() == entries@.take(index as int));
            assert(entries@.take(index + 1).last() == entries@[index as int]);
            if after_payload_entry(inspection@, entries@[index as int]) is Err {
                lemma_entries_prefix(start, entries@, index + 1);
            }
        }
        inspection.add_entry(&entries[index])?;
    }
    assert(entries@.take(entries@.len() as int) == entries@);
    Ok(inspection.finish(present, system_libraries))
}

proof fn lemma_entries_prefix(state: InspectionModel, entries: Seq<PayloadEntry>, length: int)
    requires
        0 <= length <= entries.len(),
        after_payload_entries(state, entries.take(length)) is Err,
    ensures
        after_payload_entries(state, entries) == after_payload_entries(state, entries.take(length)),
    decreases entries.len(),
{
    if length < entries.len() {
        assert(entries.drop_last().take(length) == entries.take(length));
        lemma_entries_prefix(state, entries.drop_last(), length);
    } else {
        assert(entries.take(length) == entries);
    }
}

// ---------------------------------------------------------------------------
// Laws
// ---------------------------------------------------------------------------
/// Every ELF file of an accepted payload is counted, and either runs on the
/// host or is listed as foreign.
pub proof fn every_elf_file_is_accounted_for(
    root: Seq<u8>,
    architecture: Seq<char>,
    entries: Seq<PayloadEntry>,
)
    ensures
        after_payload_entries(new_inspection(root, architecture), entries) matches Ok(state)
            ==> state.elf_files == state.parsed.len() + state.foreign.len(),
    decreases entries.len(),
{
    if entries.len() > 0 {
        every_elf_file_is_accounted_for(root, architecture, entries.drop_last());
    }
}

/// A payload with a special file is refused, wherever the file stands.
pub proof fn special_files_are_refused(
    state: InspectionModel,
    entries: Seq<PayloadEntry>,
    index: int,
)
    requires
        0 <= index < entries.len(),
        entries[index].path@.len() > 0,
        entries[index].content is Special,
    ensures
        after_payload_entries(state, entries) is Err,
    decreases entries.len(),
{
    if index < entries.len() - 1 {
        special_files_are_refused(state, entries.drop_last(), index);
    }
}

proof fn lemma_inspection_keeps(state: InspectionModel, entries: Seq<PayloadEntry>)
    ensures
        after_payload_entries(state, entries) matches Ok(after) ==> after.root == state.root
            && after.expected == state.expected,
    decreases entries.len(),
{
    if entries.len() > 0 {
        lemma_inspection_keeps(state, entries.drop_last());
    }
}

/// A payload with an executable for another architecture than the expected one
/// is refused, wherever the file stands.
pub proof fn foreign_executables_are_refused(
    root: Seq<u8>,
    architecture: Seq<char>,
    entries: Seq<PayloadEntry>,
    index: int,
    elf: ElfModel,
)
    requires
        0 <= index < entries.len(),
        entries[index].path@.len() > 0,
        entries[index].content matches PayloadContent::File { bytes, .. } && elf_of(
            bytes@,
            lossy_text(joined_path(root, entries[index].path@)),
        ) == Ok::<Option<ElfModel>, Seq<char>>(Some(elf)),
        elf.interpreter is Some || is_command(entries[index].path@),
        expected_for(architecture) is Some,
        !is_expected(elf, expected_for(architecture)),
    ensures
        after_payload_entries(new_inspection(root, architecture), entries) is Err,
    decreases entries.len(),
{
    if index < entries.len() - 1 {
        foreign_executables_are_refused(root, architecture, entries.drop_last(), index, elf);
    } else {
        lemma_inspection_keeps(new_inspection(root, architecture), entries.drop_last());
    }
}

/// An ELF file that can be read is no fault of a package without an expected
/// sort of ELF files: it is counted and listed as foreign.
pub proof fn packages_for_any_machine_may_hold_programs(
    state: InspectionModel,
    path: Seq<u8>,
    elf: ElfModel,
)
    requires
        state.expected is None,
    ensures
        with_elf(state, path, elf) == Ok::<InspectionModel, Seq<char>>(
            (InspectionModel {
                elf_files: state.elf_files + 1,
                foreign: state.foreign.push(path),
                ..state
            }),
        ),
        expected_for("any"@) is None,
{
    reveal_strlit("any");
    reveal_strlit("x86_64");
    reveal_strlit("i686");
    reveal_strlit("aarch64");
    reveal_strlit("arm");
    reveal_strlit("armv7h");
    reveal_strlit("ppc64le");
    reveal_strlit("ppc64");
    reveal_strlit("riscv64");
    reveal_strlit("s390x");
    assert("any"@[1] == 'n' && "arm"@[1] == 'r');
}

} // verus!
