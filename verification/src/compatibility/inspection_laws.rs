//! What the inspection of a payload promises.

use vstd::prelude::*;
use vstd::utf8::{encode_utf8, valid_utf8};

use crate::compatibility::elf::{elf_of, ElfModel};
use crate::compatibility::inspection::{
    after_payload_entries, after_payload_entry, all_interpreters, all_needed, all_risky,
    expected_for, file_libraries, interpreter_places, is_command, is_report_of, line_libraries, new_inspection,
    risky_of_paths, risky_parts, InspectionModel, PayloadContent, PayloadEntry,
};
use crate::compatibility::report::{count_warning, list_warning, report_warnings, ReportModel};
use crate::encoding::lossy_text;
use crate::number::decimal;
use crate::paths::{
    is_plain_name, is_under, joined_names_lie_directly_below, joined_path, name_of,
    path_components,
};
use crate::pieces::{join, occurs_in, split, words};
use crate::text::CharClass;

verus! {

// ---------------------------------------------------------------------------
// Entries
// ---------------------------------------------------------------------------
/// The entry is an ELF file.
pub open spec fn is_elf_entry(root: Seq<u8>, entry: PayloadEntry, elf: ElfModel) -> bool {
    &&& entry.path@.len() > 0
    &&& entry.content matches PayloadContent::File { bytes, .. } && elf_of(
        bytes@,
        lossy_text(joined_path(root, entry.path@)),
    ) == Ok::<Option<ElfModel>, Seq<char>>(Some(elf))
}

/// The ELF file is one that the architecture runs.
pub open spec fn runs_on(elf: ElfModel, architecture: Seq<char>) -> bool {
    expected_for(architecture) matches Some(expected) && expected.class == elf.class
        && expected.little_endian == elf.little_endian && expected.machine == elf.machine
}

/// The entry is a file with a name.
pub open spec fn is_named_file(entry: PayloadEntry, name: Seq<char>) -> bool {
    &&& entry.path@.len() > 0
    &&& entry.content is File
    &&& name_of(entry.path@) == Some(encode_utf8(name))
}

/// Some entry of a payload is a file with a name.
pub open spec fn holds_file(entries: Seq<PayloadEntry>, name: Seq<char>) -> bool {
    exists|index: int| 0 <= index < entries.len() && is_named_file(#[trigger] entries[index], name)
}

/// Some entry of a payload is an ELF file that the architecture runs.
pub open spec fn holds_program(
    root: Seq<u8>,
    architecture: Seq<char>,
    entries: Seq<PayloadEntry>,
    elf: ElfModel,
) -> bool {
    runs_on(elf, architecture) && exists|index: int|
        0 <= index < entries.len() && is_elf_entry(root, #[trigger] entries[index], elf)
}

proof fn lemma_entry_kept(entries: Seq<PayloadEntry>, name: Seq<char>)
    requires
        entries.len() > 0,
    ensures
        holds_file(entries, name) <==> holds_file(entries.drop_last(), name) || is_named_file(
            entries.last(),
            name,
        ),
{
    let fewer = entries.drop_last();
    if holds_file(fewer, name) {
        let index = choose|index: int|
            0 <= index < fewer.len() && is_named_file(#[trigger] fewer[index], name);
        assert(entries[index] == fewer[index]);
    }
    if is_named_file(entries.last(), name) {
        assert(entries[entries.len() - 1] == entries.last());
    }
    if holds_file(entries, name) {
        let index = choose|index: int|
            0 <= index < entries.len() && is_named_file(#[trigger] entries[index], name);
        if index < fewer.len() {
            assert(entries[index] == fewer[index]);
        }
    }
}

proof fn lemma_program_kept(
    root: Seq<u8>,
    architecture: Seq<char>,
    entries: Seq<PayloadEntry>,
    elf: ElfModel,
)
    requires
        entries.len() > 0,
    ensures
        holds_program(root, architecture, entries, elf) <==> holds_program(
            root,
            architecture,
            entries.drop_last(),
            elf,
        ) || (runs_on(elf, architecture) && is_elf_entry(root, entries.last(), elf)),
{
    let fewer = entries.drop_last();
    if holds_program(root, architecture, fewer, elf) {
        let index = choose|index: int|
            0 <= index < fewer.len() && is_elf_entry(root, #[trigger] fewer[index], elf);
        assert(entries[index] == fewer[index]);
    }
    if is_elf_entry(root, entries.last(), elf) {
        assert(entries[entries.len() - 1] == entries.last());
    }
    if holds_program(root, architecture, entries, elf) {
        let index = choose|index: int|
            0 <= index < entries.len() && is_elf_entry(root, #[trigger] entries[index], elf);
        if index < fewer.len() {
            assert(entries[index] == fewer[index]);
        }
    }
}

proof fn lemma_state(
    root: Seq<u8>,
    architecture: Seq<char>,
    entries: Seq<PayloadEntry>,
    name: Seq<char>,
    elf: ElfModel,
)
    ensures
        after_payload_entries(new_inspection(root, architecture), entries) matches Ok(state) ==> {
            &&& state.root == root
            &&& state.expected == expected_for(architecture)
            &&& state.provided.contains(name) <==> holds_file(entries, name)
            &&& state.parsed.contains(elf) <==> holds_program(root, architecture, entries, elf)
        },
    decreases entries.len(),
{
    if entries.len() > 0 {
        let fewer = entries.drop_last();
        let entry = entries.last();
        lemma_state(root, architecture, fewer, name, elf);
        lemma_entry_kept(entries, name);
        lemma_program_kept(root, architecture, entries, elf);
        if let Ok(state) = after_payload_entries(new_inspection(root, architecture), entries) {
            let before = after_payload_entries(new_inspection(root, architecture), fewer)->Ok_0;
            assert(after_payload_entry(before, entry) == Ok::<InspectionModel, Seq<char>>(state));
            if let Some(found) = name_of(entry.path@) {
                if valid_utf8(found) {
                    vstd::utf8::decode_utf8_encode_utf8(found);
                }
                vstd::utf8::encode_utf8_valid_utf8(name);
                vstd::utf8::encode_utf8_decode_utf8(name);
            }
            if state.parsed != before.parsed {
                let added = state.parsed.last();
                assert(state.parsed == before.parsed.push(added));
                assert(is_elf_entry(root, entry, added));
                assert(state.parsed[before.parsed.len() as int] == added);
                if before.parsed.contains(elf) {
                    let at = choose|at: int|
                        0 <= at < before.parsed.len() && before.parsed[at] == elf;
                    assert(state.parsed[at] == elf);
                }
                if state.parsed.contains(elf) {
                    let at = choose|at: int|
                        0 <= at < state.parsed.len() && state.parsed[at] == elf;
                    if at < before.parsed.len() {
                        assert(before.parsed[at] == elf);
                    }
                }
            }
        }
    }
}

proof fn lemma_needed(parsed: Seq<ElfModel>, name: Seq<char>)
    ensures
        all_needed(parsed).contains(name) <==> exists|index: int|
            0 <= index < parsed.len() && (#[trigger] parsed[index]).needed.contains(name),
    decreases parsed.len(),
{
    if parsed.len() > 0 {
        let fewer = parsed.drop_last();
        lemma_needed(fewer, name);
        let before = all_needed(fewer);
        let last = parsed.last().needed;
        let all = all_needed(parsed);
        if before.contains(name) {
            let at = choose|at: int| 0 <= at < before.len() && before[at] == name;
            assert(all[at] == name);
            let index = choose|index: int|
                0 <= index < fewer.len() && (#[trigger] fewer[index]).needed.contains(name);
            assert(parsed[index] == fewer[index]);
        }
        if last.contains(name) {
            let at = choose|at: int| 0 <= at < last.len() && last[at] == name;
            assert(all[before.len() + at] == name);
            assert(parsed[parsed.len() - 1] == parsed.last());
        }
        if all.contains(name) {
            let at = choose|at: int| 0 <= at < all.len() && all[at] == name;
            if at < before.len() {
                assert(before[at] == name);
            } else {
                assert(last[at - before.len()] == name);
            }
        }
        if exists|index: int|
            0 <= index < parsed.len() && (#[trigger] parsed[index]).needed.contains(name) {
            let index = choose|index: int|
                0 <= index < parsed.len() && (#[trigger] parsed[index]).needed.contains(name);
            if index < fewer.len() {
                assert(fewer[index] == parsed[index]);
            }
        }
    }
}

proof fn lemma_interpreters(parsed: Seq<ElfModel>, name: Seq<char>)
    ensures
        all_interpreters(parsed).contains(name) <==> exists|index: int|
            0 <= index < parsed.len() && (#[trigger] parsed[index]).interpreter == Some(name),
    decreases parsed.len(),
{
    if parsed.len() > 0 {
        let fewer = parsed.drop_last();
        lemma_interpreters(fewer, name);
        let before = all_interpreters(fewer);
        let all = all_interpreters(parsed);
        if before.contains(name) {
            let at = choose|at: int| 0 <= at < before.len() && before[at] == name;
            assert(all[at] == name);
            let index = choose|index: int|
                0 <= index < fewer.len() && (#[trigger] fewer[index]).interpreter == Some(name);
            assert(parsed[index] == fewer[index]);
        }
        if parsed.last().interpreter == Some(name) {
            assert(all[before.len() as int] == name);
            assert(parsed[parsed.len() - 1] == parsed.last());
        }
        if all.contains(name) {
            let at = choose|at: int| 0 <= at < all.len() && all[at] == name;
            if at < before.len() {
                assert(before[at] == name);
            }
        }
        if exists|index: int|
            0 <= index < parsed.len() && (#[trigger] parsed[index]).interpreter == Some(name) {
            let index = choose|index: int|
                0 <= index < parsed.len() && (#[trigger] parsed[index]).interpreter == Some(name);
            if index < fewer.len() {
                assert(fewer[index] == parsed[index]);
            }
        }
    }
}

/// Some program of the payload needs the library.
pub open spec fn is_needed(
    root: Seq<u8>,
    architecture: Seq<char>,
    entries: Seq<PayloadEntry>,
    library: Seq<char>,
) -> bool {
    exists|elf: ElfModel| #[trigger]
        holds_program(root, architecture, entries, elf) && elf.needed.contains(library)
}

/// Some program of the payload runs with the interpreter.
pub open spec fn is_asked_for(
    root: Seq<u8>,
    architecture: Seq<char>,
    entries: Seq<PayloadEntry>,
    interpreter: Seq<char>,
) -> bool {
    exists|elf: ElfModel| #[trigger]
        holds_program(root, architecture, entries, elf) && elf.interpreter == Some(interpreter)
}

/// A library is reported as missing exactly if a program of the payload for the
/// architecture needs it, the system does not have it, and no file of the payload
/// has its name.  An interpreter is reported exactly if a program of the payload
/// runs with it and it is not there.
pub proof fn missing_files_are_reported(
    root: Seq<u8>,
    architecture: Seq<char>,
    entries: Seq<PayloadEntry>,
    present: Set<Seq<char>>,
    system: Set<Seq<char>>,
    state: InspectionModel,
    report: ReportModel,
    name: Seq<char>,
)
    requires
        after_payload_entries(new_inspection(root, architecture), entries) == Ok::<
            InspectionModel,
            Seq<char>,
        >(state),
        is_report_of(report, state, present, system),
    ensures
        report.missing_libraries.contains(name) <==> is_needed(root, architecture, entries, name)
            && !system.contains(name) && !holds_file(entries, name),
        report.missing_interpreters.contains(name) <==> is_asked_for(
            root,
            architecture,
            entries,
            name,
        ) && !present.contains(name),
{
    let parsed = state.parsed;
    lemma_needed(parsed, name);
    lemma_interpreters(parsed, name);
    assert forall|elf: ElfModel| #[trigger] parsed.contains(elf) <==> holds_program(
        root,
        architecture,
        entries,
        elf,
    ) by {
        lemma_state(root, architecture, entries, name, elf);
    }
    lemma_state(root, architecture, entries, name, arbitrary());
    assert(all_needed(parsed).contains(name) <==> is_needed(root, architecture, entries, name)) by {
        if all_needed(parsed).contains(name) {
            let index = choose|index: int|
                0 <= index < parsed.len() && (#[trigger] parsed[index]).needed.contains(name);
            assert(parsed.contains(parsed[index]));
        }
        if is_needed(root, architecture, entries, name) {
            let elf = choose|elf: ElfModel| #[trigger]
                holds_program(root, architecture, entries, elf) && elf.needed.contains(name);
            assert(parsed.contains(elf));
            let index = choose|index: int| 0 <= index < parsed.len() && parsed[index] == elf;
            assert(parsed[index].needed.contains(name));
        }
    }
    assert(all_interpreters(parsed).contains(name) <==> is_asked_for(
        root,
        architecture,
        entries,
        name,
    )) by {
        if all_interpreters(parsed).contains(name) {
            let index = choose|index: int|
                0 <= index < parsed.len() && (#[trigger] parsed[index]).interpreter == Some(name);
            assert(parsed.contains(parsed[index]));
        }
        if is_asked_for(root, architecture, entries, name) {
            let elf = choose|elf: ElfModel| #[trigger]
                holds_program(root, architecture, entries, elf) && elf.interpreter == Some(name);
            assert(parsed.contains(elf));
            let index = choose|index: int| 0 <= index < parsed.len() && parsed[index] == elf;
            assert(parsed[index].interpreter == Some(name));
        }
    }
}

// ---------------------------------------------------------------------------
// Other findings
// ---------------------------------------------------------------------------
/// Some entry of a payload is a file that runs with the rights of its owner or
/// of its group.
pub open spec fn holds_privileged_file(entries: Seq<PayloadEntry>, path: Seq<u8>) -> bool {
    exists|index: int|
        0 <= index < entries.len() && is_privileged_entry(#[trigger] entries[index], path)
}

/// The entry is a file that runs with the rights of its owner or of its group.
pub open spec fn is_privileged_entry(entry: PayloadEntry, path: Seq<u8>) -> bool {
    &&& entry.path@ == path
    &&& path.len() > 0
    &&& entry.content matches PayloadContent::File { mode, .. } && (mode & 0o4000 != 0 || mode
        & 0o2000 != 0)
}

/// Some entry of a payload is an ELF file that the architecture does not run.
pub open spec fn holds_foreign_file(
    root: Seq<u8>,
    architecture: Seq<char>,
    entries: Seq<PayloadEntry>,
    path: Seq<u8>,
) -> bool {
    exists|index: int|
        0 <= index < entries.len() && is_foreign_entry(
            root,
            architecture,
            #[trigger] entries[index],
            path,
        )
}

proof fn lemma_privileged(mode: u32)
    ensures
        mode & 0o6000 != 0 <==> mode & 0o4000 != 0 || mode & 0o2000 != 0,
{
    assert(mode & 0o6000 != 0 <==> mode & 0o4000 != 0 || mode & 0o2000 != 0) by (bit_vector);
}

proof fn lemma_pushed(before: Seq<Seq<u8>>, after: Seq<Seq<u8>>, added: Seq<u8>, path: Seq<u8>)
    requires
        after == before.push(added),
    ensures
        after.contains(path) <==> before.contains(path) || added == path,
{
    if before.contains(path) {
        let at = choose|at: int| 0 <= at < before.len() && before[at] == path;
        assert(after[at] == path);
    }
    if added == path {
        assert(after[before.len() as int] == path);
    }
    if after.contains(path) {
        let at = choose|at: int| 0 <= at < after.len() && after[at] == path;
        if at < before.len() {
            assert(before[at] == path);
        }
    }
}

proof fn lemma_privileged_kept(entries: Seq<PayloadEntry>, path: Seq<u8>)
    requires
        entries.len() > 0,
    ensures
        holds_privileged_file(entries, path) <==> holds_privileged_file(entries.drop_last(), path)
            || is_privileged_entry(entries.last(), path),
{
    let fewer = entries.drop_last();
    assert(entries[entries.len() - 1] == entries.last());
    if holds_privileged_file(fewer, path) {
        let index = choose|index: int|
            0 <= index < fewer.len() && is_privileged_entry(#[trigger] fewer[index], path);
        assert(entries[index] == fewer[index]);
    }
    if holds_privileged_file(entries, path) {
        let index = choose|index: int|
            0 <= index < entries.len() && is_privileged_entry(#[trigger] entries[index], path);
        if index < fewer.len() {
            assert(entries[index] == fewer[index]);
        }
    }
}

/// The entry is an ELF file that the architecture does not run.
pub open spec fn is_foreign_entry(
    root: Seq<u8>,
    architecture: Seq<char>,
    entry: PayloadEntry,
    path: Seq<u8>,
) -> bool {
    entry.path@ == path && exists|elf: ElfModel|
        !runs_on(elf, architecture) && #[trigger] is_elf_entry(root, entry, elf)
}

proof fn lemma_foreign_kept(
    root: Seq<u8>,
    architecture: Seq<char>,
    entries: Seq<PayloadEntry>,
    path: Seq<u8>,
)
    requires
        entries.len() > 0,
    ensures
        holds_foreign_file(root, architecture, entries, path) <==> holds_foreign_file(
            root,
            architecture,
            entries.drop_last(),
            path,
        ) || is_foreign_entry(root, architecture, entries.last(), path),
{
    let fewer = entries.drop_last();
    assert(entries[entries.len() - 1] == entries.last());
    if holds_foreign_file(root, architecture, fewer, path) {
        let index = choose|index: int|
            0 <= index < fewer.len() && is_foreign_entry(
                root,
                architecture,
                #[trigger] fewer[index],
                path,
            );
        assert(entries[index] == fewer[index]);
    }
    if holds_foreign_file(root, architecture, entries, path) {
        let index = choose|index: int|
            0 <= index < entries.len() && is_foreign_entry(
                root,
                architecture,
                #[trigger] entries[index],
                path,
            );
        if index < fewer.len() {
            assert(entries[index] == fewer[index]);
        }
    }
}

proof fn lemma_listed_entry(
    before: InspectionModel,
    after: InspectionModel,
    architecture: Seq<char>,
    entry: PayloadEntry,
    path: Seq<u8>,
)
    requires
        before.expected == expected_for(architecture),
        after_payload_entry(before, entry) == Ok::<InspectionModel, Seq<char>>(after),
    ensures
        after.privileged.contains(path) <==> before.privileged.contains(path)
            || is_privileged_entry(entry, path),
        after.foreign.contains(path) <==> before.foreign.contains(path) || is_foreign_entry(
            before.root,
            architecture,
            entry,
            path,
        ),
{
    if let PayloadContent::File { mode, bytes } = entry.content {
        lemma_privileged(mode);
        if entry.path@.len() > 0 {
            if mode & 0o6000 != 0 {
                lemma_pushed(before.privileged, after.privileged, entry.path@, path);
            }
            let read = elf_of(bytes@, lossy_text(joined_path(before.root, entry.path@)));
            if let Ok(Some(elf)) = read {
                assert(is_elf_entry(before.root, entry, elf));
                if !runs_on(elf, architecture) {
                    lemma_pushed(before.foreign, after.foreign, entry.path@, path);
                }
            }
        }
    }
}

/// Exactly the files with the rights of their owner or group are listed as
/// privileged, and exactly the ELF files of other sorts as foreign.
pub proof fn privileged_and_foreign_files_are_listed(
    root: Seq<u8>,
    architecture: Seq<char>,
    entries: Seq<PayloadEntry>,
    path: Seq<u8>,
)
    ensures
        after_payload_entries(new_inspection(root, architecture), entries) matches Ok(state) ==> {
            &&& state.privileged.contains(path) <==> holds_privileged_file(entries, path)
            &&& state.foreign.contains(path) <==> holds_foreign_file(
                root,
                architecture,
                entries,
                path,
            )
        },
    decreases entries.len(),
{
    if entries.len() > 0 {
        let fewer = entries.drop_last();
        privileged_and_foreign_files_are_listed(root, architecture, fewer, path);
        lemma_privileged_kept(entries, path);
        lemma_foreign_kept(root, architecture, entries, path);
        if let Ok(state) = after_payload_entries(new_inspection(root, architecture), entries) {
            let before = after_payload_entries(new_inspection(root, architecture), fewer)->Ok_0;
            lemma_state(root, architecture, fewer, seq![], arbitrary());
            lemma_listed_entry(before, state, architecture, entries.last(), path);
        }
    }
}

proof fn lemma_risky_parts(parts: Seq<Seq<char>>, part: Seq<char>)
    ensures
        risky_parts(parts).contains(part) <==> parts.contains(part) && occurs_in("linux-gnu"@, part),
    decreases parts.len(),
{
    reveal(Seq::filter);
    if parts.len() > 0 {
        let fewer = parts.drop_last();
        lemma_risky_parts(fewer, part);
        let before = risky_parts(fewer);
        let all = risky_parts(parts);
        let last = parts.last();
        assert(parts[parts.len() - 1] == last);
        if fewer.contains(part) {
            let at = choose|at: int| 0 <= at < fewer.len() && fewer[at] == part;
            assert(parts[at] == part);
        }
        if parts.contains(part) {
            let at = choose|at: int| 0 <= at < parts.len() && parts[at] == part;
            if at < fewer.len() {
                assert(fewer[at] == part);
            }
        }
        if before.contains(part) {
            let at = choose|at: int| 0 <= at < before.len() && before[at] == part;
            assert(all[at] == part);
        }
        if occurs_in("linux-gnu"@, last) {
            assert(all == before.push(last));
            assert(all[before.len() as int] == last);
        }
        if all.contains(part) {
            let at = choose|at: int| 0 <= at < all.len() && all[at] == part;
            if at < before.len() {
                assert(before[at] == part);
            }
        }
    }
}

/// A runtime path has the directory between its colons.
pub open spec fn searches(paths: Seq<Seq<char>>, directory: Seq<char>) -> bool {
    exists|index: int|
        0 <= index < paths.len() && split(#[trigger] paths[index], CharClass::Exactly(':')).contains(
            directory,
        )
}

proof fn lemma_both(first: Seq<Seq<char>>, second: Seq<Seq<char>>, text: Seq<char>)
    ensures
        (first + second).contains(text) <==> first.contains(text) || second.contains(text),
{
    let all = first + second;
    if first.contains(text) {
        let at = choose|at: int| 0 <= at < first.len() && first[at] == text;
        assert(all[at] == text);
    }
    if second.contains(text) {
        let at = choose|at: int| 0 <= at < second.len() && second[at] == text;
        assert(all[first.len() + at] == text);
    }
    if all.contains(text) {
        let at = choose|at: int| 0 <= at < all.len() && all[at] == text;
        if at < first.len() {
            assert(first[at] == text);
        } else {
            assert(second[at - first.len()] == text);
        }
    }
}

proof fn lemma_risky_paths(paths: Seq<Seq<char>>, directory: Seq<char>)
    ensures
        risky_of_paths(paths).contains(directory) <==> searches(paths, directory) && occurs_in(
            "linux-gnu"@,
            directory,
        ),
    decreases paths.len(),
{
    if paths.len() > 0 {
        let fewer = paths.drop_last();
        let parts = split(paths.last(), CharClass::Exactly(':'));
        lemma_risky_paths(fewer, directory);
        lemma_risky_parts(parts, directory);
        lemma_both(risky_of_paths(fewer), risky_parts(parts), directory);
        assert(paths[paths.len() - 1] == paths.last());
        if searches(fewer, directory) {
            let index = choose|index: int|
                0 <= index < fewer.len() && split(
                    #[trigger] fewer[index],
                    CharClass::Exactly(':'),
                ).contains(directory);
            assert(paths[index] == fewer[index]);
        }
        if searches(paths, directory) {
            let index = choose|index: int|
                0 <= index < paths.len() && split(
                    #[trigger] paths[index],
                    CharClass::Exactly(':'),
                ).contains(directory);
            if index < fewer.len() {
                assert(paths[index] == fewer[index]);
            }
        }
    }
}

/// A directory is reported as risky exactly if a program searches it and it
/// belongs to Debian's layout.
pub proof fn risky_directories_are_reported(parsed: Seq<ElfModel>, directory: Seq<char>)
    ensures
        all_risky(parsed).contains(directory) <==> occurs_in("linux-gnu"@, directory) && exists|
            index: int,
        |
            0 <= index < parsed.len() && searches(
                (#[trigger] parsed[index]).runtime_paths,
                directory,
            ),
    decreases parsed.len(),
{
    if parsed.len() > 0 {
        let fewer = parsed.drop_last();
        risky_directories_are_reported(fewer, directory);
        lemma_risky_paths(parsed.last().runtime_paths, directory);
        lemma_both(all_risky(fewer), risky_of_paths(parsed.last().runtime_paths), directory);
        assert(parsed[parsed.len() - 1] == parsed.last());
        if exists|index: int|
            0 <= index < fewer.len() && searches(
                (#[trigger] fewer[index]).runtime_paths,
                directory,
            ) {
            let index = choose|index: int|
                0 <= index < fewer.len() && searches(
                    (#[trigger] fewer[index]).runtime_paths,
                    directory,
                );
            assert(parsed[index] == fewer[index]);
        }
        if exists|index: int|
            0 <= index < parsed.len() && searches(
                (#[trigger] parsed[index]).runtime_paths,
                directory,
            ) {
            let index = choose|index: int|
                0 <= index < parsed.len() && searches(
                    (#[trigger] parsed[index]).runtime_paths,
                    directory,
                );
            if index < fewer.len() {
                assert(parsed[index] == fewer[index]);
            }
        }
    }
}

// ---------------------------------------------------------------------------
// Host
// ---------------------------------------------------------------------------
/// The system has a library exactly if the first word of a line of `ldconfig -p`
/// names it, or a library directory holds a file of its name; the name of a
/// library holds `.so`.
pub proof fn libraries_are_found_by_name(
    all_lines: Seq<Seq<char>>,
    names: Seq<Seq<char>>,
    name: Seq<char>,
)
    ensures
        line_libraries(all_lines).contains(name) <==> occurs_in(".so"@, name) && exists|index: int|
            0 <= index < all_lines.len() && words(#[trigger] all_lines[index]).len() > 0 && words(
                all_lines[index],
            )[0] == name,
        file_libraries(names).contains(name) <==> occurs_in(".so"@, name) && names.contains(name),
    decreases all_lines.len() + names.len(),
{
    if all_lines.len() > 0 {
        let fewer = all_lines.drop_last();
        libraries_are_found_by_name(fewer, names, name);
        assert(all_lines[all_lines.len() - 1] == all_lines.last());
        if exists|index: int|
            0 <= index < fewer.len() && words(#[trigger] fewer[index]).len() > 0 && words(
                fewer[index],
            )[0] == name {
            let index = choose|index: int|
                0 <= index < fewer.len() && words(#[trigger] fewer[index]).len() > 0 && words(
                    fewer[index],
                )[0] == name;
            assert(all_lines[index] == fewer[index]);
        }
        if exists|index: int|
            0 <= index < all_lines.len() && words(#[trigger] all_lines[index]).len() > 0 && words(
                all_lines[index],
            )[0] == name {
            let index = choose|index: int|
                0 <= index < all_lines.len() && words(#[trigger] all_lines[index]).len() > 0
                    && words(all_lines[index])[0] == name;
            if index < fewer.len() {
                assert(all_lines[index] == fewer[index]);
            }
        }
    }
    if names.len() > 0 {
        let fewer = names.drop_last();
        libraries_are_found_by_name(all_lines.take(0), fewer, name);
        assert(names[names.len() - 1] == names.last());
        if fewer.contains(name) {
            let at = choose|at: int| 0 <= at < fewer.len() && fewer[at] == name;
            assert(names[at] == name);
        }
        if names.contains(name) {
            let at = choose|at: int| 0 <= at < names.len() && names[at] == name;
            if at < fewer.len() {
                assert(fewer[at] == name);
            }
        }
    }
}

/// An interpreter is looked for at its own path, and one with a path from the
/// root also below the root of the payload.
pub proof fn interpreters_are_looked_for(root: Seq<u8>, interpreter: Seq<char>)
    ensures
        interpreter_places(root, interpreter).contains(encode_utf8(interpreter)),
        interpreter.len() > 0 && interpreter[0] == '/' ==> interpreter_places(
            root,
            interpreter,
        ).contains(joined_path(root, encode_utf8(interpreter.skip(1)))),
        interpreter_places(root, interpreter).len() <= 2,
{
    reveal_strlit("/");
    let places = interpreter_places(root, interpreter);
    if interpreter.len() > 0 && interpreter[0] == '/' {
        assert(interpreter.take(1) =~= "/"@);
        assert(places[0] == joined_path(root, encode_utf8(interpreter.skip(1))));
        assert(places[1] == encode_utf8(interpreter));
    } else {
        if interpreter.len() > 0 {
            assert(interpreter.take(1)[0] == interpreter[0]);
        }
        assert(places[0] == encode_utf8(interpreter));
    }
}

// ---------------------------------------------------------------------------
// Warnings
// ---------------------------------------------------------------------------
proof fn lemma_occurs(part: Seq<char>, start: Seq<char>, end: Seq<char>)
    ensures
        occurs_in(part, start + part + end),
{
    let text = start + part + end;
    assert(text.subrange(start.len() as int, (start.len() + part.len()) as int) =~= part);
}

proof fn lemma_occurs_longer(part: Seq<char>, text: Seq<char>, start: Seq<char>, end: Seq<char>)
    requires
        occurs_in(part, text),
    ensures
        occurs_in(part, start + text + end),
{
    let at = choose|at: int|
        0 <= at && at + part.len() <= text.len() && #[trigger] text.subrange(at, at + part.len())
            == part;
    let longer = start + text + end;
    let place = start.len() + at;
    assert(longer.subrange(place, place + part.len()) =~= part);
}

proof fn lemma_joined_part(list: Seq<Seq<char>>, separator: Seq<char>, index: int)
    requires
        0 <= index < list.len(),
    ensures
        occurs_in(list[index], join(list, separator)),
    decreases list.len(),
{
    let none = Seq::<char>::empty();
    let last = list.last();
    if list.len() == 1 {
        lemma_occurs(last, none, none);
        assert(none + last + none =~= last);
    } else {
        let before = join(list.drop_last(), separator);
        if index < list.len() - 1 {
            lemma_joined_part(list.drop_last(), separator, index);
            lemma_occurs_longer(list[index], before, none, separator + last);
            assert(none + before + (separator + last) =~= before + separator + last);
        } else {
            lemma_occurs(last, before + separator, none);
            assert(before + separator + last + none =~= before + separator + last);
        }
    }
}

/// Some warning names the text.
pub open spec fn is_warned_of(warnings: Seq<Seq<char>>, text: Seq<char>) -> bool {
    exists|index: int| 0 <= index < warnings.len() && occurs_in(text, #[trigger] warnings[index])
}

/// Whatever the inspection found is warned of: each missing interpreter, each
/// missing library and each risky directory is named, and the privileged and the
/// foreign files are counted.  A payload without findings gives no warning.
pub proof fn findings_are_warned_of(report: ReportModel, text: Seq<char>)
    ensures
        report.missing_interpreters.contains(text) ==> is_warned_of(report_warnings(report), text),
        report.missing_libraries.contains(text) ==> is_warned_of(report_warnings(report), text),
        report.risky_runtime_paths.contains(text) ==> is_warned_of(report_warnings(report), text),
        report.privileged_files.len() > 0 ==> is_warned_of(
            report_warnings(report),
            decimal(report.privileged_files.len()) + " setuid or setgid file(s)"@,
        ),
        report.foreign_elf_files.len() > 0 ==> is_warned_of(
            report_warnings(report),
            decimal(report.foreign_elf_files.len()) + " bundled ELF file(s) for another architecture"@,
        ),
        report_warnings(report).len() == 0 <==> report.missing_interpreters.len() == 0
            && report.missing_libraries.len() == 0 && report.risky_runtime_paths.len() == 0
            && report.privileged_files.len() == 0 && report.foreign_elf_files.len() == 0,
{
    let warnings = report_warnings(report);
    let one = count_warning(
        "The payload contains "@,
        report.privileged_files.len(),
        " setuid or setgid file(s); review their privileged modes before installation."@,
    );
    let two = count_warning(
        "The payload contains "@,
        report.foreign_elf_files.len(),
        " bundled ELF file(s) for another architecture; host executables were checked separately."@,
    );
    let three = list_warning(
        "ELF interpreters are not present on this system: "@,
        report.missing_interpreters,
    );
    let four = list_warning(
        "Shared libraries are not present before the Pacman transaction: "@,
        report.missing_libraries,
    );
    let five = list_warning(
        "ELF runtime paths still use Debian multiarch locations: "@,
        report.risky_runtime_paths,
    );
    assert(warnings == one + two + three + four + five);
    lemma_listed("ELF interpreters are not present on this system: "@, report.missing_interpreters, text);
    lemma_listed(
        "Shared libraries are not present before the Pacman transaction: "@,
        report.missing_libraries,
        text,
    );
    lemma_listed(
        "ELF runtime paths still use Debian multiarch locations: "@,
        report.risky_runtime_paths,
        text,
    );
    if report.missing_interpreters.contains(text) {
        assert(warnings[(one + two).len() as int] == three[0]);
    }
    if report.missing_libraries.contains(text) {
        assert(warnings[(one + two + three).len() as int] == four[0]);
    }
    if report.risky_runtime_paths.contains(text) {
        assert(warnings[(one + two + three + four).len() as int] == five[0]);
    }
    if report.privileged_files.len() > 0 {
        reveal_strlit(" setuid or setgid file(s)");
        reveal_strlit(
            " setuid or setgid file(s); review their privileged modes before installation.",
        );
        let whole =
            " setuid or setgid file(s); review their privileged modes before installation."@;
        let start = " setuid or setgid file(s)"@;
        let rest = whole.skip(start.len() as int);
        assert(whole =~= start + rest);
        lemma_occurs(
            decimal(report.privileged_files.len()) + start,
            "The payload contains "@,
            rest,
        );
        assert("The payload contains "@ + (decimal(report.privileged_files.len()) + start) + rest
            =~= one[0]);
        assert(warnings[0] == one[0]);
    }
    if report.foreign_elf_files.len() > 0 {
        reveal_strlit(" bundled ELF file(s) for another architecture");
        reveal_strlit(
            " bundled ELF file(s) for another architecture; host executables were checked separately.",
        );
        let whole =
            " bundled ELF file(s) for another architecture; host executables were checked separately."@;
        let start = " bundled ELF file(s) for another architecture"@;
        let rest = whole.skip(start.len() as int);
        assert(whole =~= start + rest);
        lemma_occurs(
            decimal(report.foreign_elf_files.len()) + start,
            "The payload contains "@,
            rest,
        );
        assert("The payload contains "@ + (decimal(report.foreign_elf_files.len()) + start) + rest
            =~= two[0]);
        assert(warnings[one.len() as int] == two[0]);
    }
}

proof fn lemma_listed(start: Seq<char>, list: Seq<Seq<char>>, text: Seq<char>)
    ensures
        list.contains(text) ==> list_warning(start, list).len() == 1 && occurs_in(
            text,
            list_warning(start, list)[0],
        ),
{
    if list.contains(text) {
        let index = choose|index: int| 0 <= index < list.len() && list[index] == text;
        lemma_joined_part(list, ", "@, index);
        lemma_occurs_longer(text, join(list, ", "@), start, "."@);
    }
}

// ---------------------------------------------------------------------------
// Architectures
// ---------------------------------------------------------------------------
/// The ELF files of an architecture have 64 bits exactly if its name says so or
/// it is `s390x`, and start with their greatest byte exactly on `ppc64` and
/// `s390x`.  Architectures of one processor share its number.
pub proof fn architectures_expect_their_files(architecture: Seq<char>)
    ensures
        expected_for(architecture) matches Some(expected) ==> {
            &&& expected.class is Elf64 <==> architecture == "x86_64"@ || architecture
                == "aarch64"@ || architecture == "ppc64"@ || architecture == "ppc64le"@
                || architecture == "riscv64"@ || architecture == "s390x"@
            &&& !expected.little_endian <==> architecture == "ppc64"@ || architecture == "s390x"@
            &&& expected.machine == 62 <==> architecture == "x86_64"@
            &&& expected.machine == 3 <==> architecture == "i686"@
            &&& expected.machine == 183 <==> architecture == "aarch64"@
            &&& expected.machine == 40 <==> architecture == "arm"@ || architecture == "armv7h"@
            &&& expected.machine == 21 <==> architecture == "ppc64"@ || architecture == "ppc64le"@
            &&& expected.machine == 243 <==> architecture == "riscv64"@
            &&& expected.machine == 22 <==> architecture == "s390x"@
        },
        expected_for(architecture) is Some <==> architecture == "x86_64"@ || architecture
            == "i686"@ || architecture == "aarch64"@ || architecture == "arm"@ || architecture
            == "armv7h"@ || architecture == "ppc64"@ || architecture == "ppc64le"@ || architecture
            == "riscv64"@ || architecture == "s390x"@,
{
    reveal_strlit("x86_64");
    reveal_strlit("i686");
    reveal_strlit("aarch64");
    reveal_strlit("arm");
    reveal_strlit("armv7h");
    reveal_strlit("ppc64le");
    reveal_strlit("ppc64");
    reveal_strlit("riscv64");
    reveal_strlit("s390x");
    assert("x86_64"@.len() != "i686"@.len());
    assert("x86_64"@.len() != "aarch64"@.len());
    assert("x86_64"@.len() != "arm"@.len());
    assert("x86_64"@[0] != "armv7h"@[0]);
    assert("x86_64"@.len() != "ppc64le"@.len());
    assert("x86_64"@.len() != "ppc64"@.len());
    assert("x86_64"@.len() != "riscv64"@.len());
    assert("x86_64"@.len() != "s390x"@.len());
    assert("i686"@.len() != "aarch64"@.len());
    assert("i686"@.len() != "arm"@.len());
    assert("i686"@.len() != "armv7h"@.len());
    assert("i686"@.len() != "ppc64le"@.len());
    assert("i686"@.len() != "ppc64"@.len());
    assert("i686"@.len() != "riscv64"@.len());
    assert("i686"@.len() != "s390x"@.len());
    assert("aarch64"@.len() != "arm"@.len());
    assert("aarch64"@.len() != "armv7h"@.len());
    assert("aarch64"@[0] != "ppc64le"@[0]);
    assert("aarch64"@.len() != "ppc64"@.len());
    assert("aarch64"@[0] != "riscv64"@[0]);
    assert("aarch64"@.len() != "s390x"@.len());
    assert("arm"@.len() != "armv7h"@.len());
    assert("arm"@.len() != "ppc64le"@.len());
    assert("arm"@.len() != "ppc64"@.len());
    assert("arm"@.len() != "riscv64"@.len());
    assert("arm"@.len() != "s390x"@.len());
    assert("armv7h"@.len() != "ppc64le"@.len());
    assert("armv7h"@.len() != "ppc64"@.len());
    assert("armv7h"@.len() != "riscv64"@.len());
    assert("armv7h"@.len() != "s390x"@.len());
    assert("ppc64le"@.len() != "ppc64"@.len());
    assert("ppc64le"@[0] != "riscv64"@[0]);
    assert("ppc64le"@.len() != "s390x"@.len());
    assert("ppc64"@.len() != "riscv64"@.len());
    assert("ppc64"@[0] != "s390x"@[0]);
    assert("riscv64"@.len() != "s390x"@.len());
}

/// What stands directly in `usr/bin`, `bin` or `usr/sbin` is a command.
pub proof fn directories_of_commands_hold_commands(name: Seq<u8>)
    requires
        is_plain_name(name),
    ensures
        is_command(joined_path(encode_utf8("usr/bin"@), name)),
        is_command(joined_path(encode_utf8("bin"@), name)),
        is_command(joined_path(encode_utf8("usr/sbin"@), name)),
{
    lemma_lies_under(encode_utf8("usr/bin"@), name);
    lemma_lies_under(encode_utf8("bin"@), name);
    lemma_lies_under(encode_utf8("usr/sbin"@), name);
}

proof fn lemma_lies_under(directory: Seq<u8>, name: Seq<u8>)
    requires
        is_plain_name(name),
    ensures
        is_under(joined_path(directory, name), directory),
{
    joined_names_lie_directly_below(directory, name);
    let all = path_components(joined_path(directory, name));
    assert(all.take(path_components(directory).len() as int) =~= path_components(directory));
}

} // verus!
